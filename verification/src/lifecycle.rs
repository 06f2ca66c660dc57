//! What holds of tokens, nodes and networks over several steps.
use vstd::prelude::*;

use crate::auth::{admin_allowed, bearer_of, node_allowed, HeadersView};
use crate::consistency::{
    consistent, keys_tidy, network_sound, node_sound, placed_at, v4_of, v6_of,
};
use crate::dns::{normalized_dns_name, record_of};
use crate::enroll::{node_approved, normalized_name, registered, RegisterDrawsView};
use crate::error::ApiError;
use crate::keys::{
    age_limit, elapsed, fresh_key, in_good_standing, is_current, key_for, key_made, key_revoked,
    rotation_due,
};
use crate::model::{
    name_in_domain, ApproveNodeResponseView, KeyRecordView, KeyRotationPolicyView, KeyType,
    NodeStateView, RegisterRequestView, RelayConfigView, TokenStateView,
};
use crate::net::{
    law_dotted_is_read_back, law_ip_text_is_read_back, parsed_ipv4, parsed_ipv6, IpAddress,
};
use crate::netmap::netmap_of;
use crate::networks::{has_nodes, network_deleted};
use crate::nodes::{key_replaced, merged_endpoints, node_revoked, revoked_node};
use crate::state::{AuditStampView, StateView};
use crate::text::{first_occurrences, law_first_occurrences};

verus! {

/// How often a token may still be used.
pub open spec fn uses_of(state: StateView, token: Seq<char>) -> int {
    if state.tokens.has(token) {
        state.tokens.at(token).uses_left as int
    } else {
        0
    }
}

/// Every node that joins with a token uses it once, and a token without uses left is gone, so a
/// token lets no more nodes join than it has uses.
pub proof fn law_token_is_spent(state: StateView, req: RegisterRequestView, draws: RegisterDrawsView)
    requires
        registered(state, req, draws).1 is Ok,
    ensures
        ({
            let after = registered(state, req, draws).0;
            &&& uses_of(state, req.token) > 0
            &&& uses_of(after, req.token) == uses_of(state, req.token) - 1
            &&& after.tokens.has(req.token) <==> uses_of(state, req.token) > 1
            &&& forall|other: Seq<char>| #[trigger]
                after.tokens.find(other) == state.tokens.find(other) || other == req.token
        }),
{
}

/// A token that is not known, expired, revoked or used up lets no node join and changes nothing.
pub proof fn law_bad_token_is_refused(
    state: StateView,
    req: RegisterRequestView,
    draws: RegisterDrawsView,
)
    requires
        ({
            ||| !state.tokens.has(req.token)
            ||| state.tokens.at(req.token).expires_at <= draws.now
            ||| state.tokens.at(req.token).revoked_at is Some
            ||| state.tokens.at(req.token).uses_left == 0
        }),
    ensures
        registered(state, req, draws) == (
            state,
            Err::<Seq<char>, ApiError>(
                match normalized_name(req.node_name) {
                    Err(refusal) => refusal,
                    Ok(_) => ApiError::Unauthorized(
                        if !state.tokens.has(req.token) {
                            "token not found"
                        } else if state.tokens.at(req.token).expires_at <= draws.now {
                            "token expired"
                        } else if state.tokens.at(req.token).revoked_at is Some {
                            "token revoked"
                        } else {
                            "token used up"
                        },
                    ),
                },
            ),
        ),
{
}

/// A node that joined with a token is known from then on by the name, the keys and the tags that it
/// was to have, in the network of the token, approved unless the network wants approval.
pub proof fn law_registered_node_is_known(
    state: StateView,
    req: RegisterRequestView,
    draws: RegisterDrawsView,
)
    requires
        consistent(state),
        registered(state, req, draws).1 is Ok,
    ensures
        ({
            let after = registered(state, req, draws).0;
            let token = state.tokens.at(req.token);
            let node = after.nodes.at(draws.node_id);
            &&& registered(state, req, draws).1 == Ok::<Seq<char>, ApiError>(draws.node_id)
            &&& after.nodes.has(draws.node_id)
            &&& node.network_id == token.network_id
            &&& normalized_name(req.node_name) == Ok::<Seq<char>, ApiError>(node.name)
            &&& node.machine_public_key == req.machine_public_key
            &&& node.wg_public_key == req.wg_public_key
            &&& node.tags == token.tags
            &&& node.approved == !state.networks.at(token.network_id).requires_approval
            &&& node.revoked_at is None
            &&& node.node_token == Some(draws.node_token)
        }),
{
    assert(network_sound(
        state.tokens.at(req.token).network_id,
        state.networks.at(state.tokens.at(req.token).network_id),
    ));
}

/// In a consistent state every node that is known learns of its network.
pub proof fn law_known_node_has_netmap(
    state: StateView,
    node_id: Seq<char>,
    relay: Option<RelayConfigView>,
    now: i64,
    generated_at: i64,
)
    requires
        consistent(state),
        state.nodes.has(node_id),
    ensures
        netmap_of(state, node_id, relay, now, generated_at) is Ok,
{
    assert(node_sound(node_id, state.nodes.at(node_id), state.networks));
}

/// A secret other than the one that a node waits for approves nothing and changes nothing.
pub proof fn law_wrong_secret_is_refused(
    state: StateView,
    node_id: Seq<char>,
    secret: Seq<char>,
    now: i64,
    stamp: AuditStampView,
)
    requires
        state.nodes.has(node_id),
        !state.nodes.at(node_id).approved,
        state.nodes.at(node_id).auth_secret != Some(secret),
    ensures
        node_approved(state, node_id, Some(secret), now, stamp) == (
            state,
            Err::<ApproveNodeResponseView, ApiError>(
                ApiError::Unauthorized(
                    if state.nodes.at(node_id).auth_secret is None {
                        "approval not allowed"
                    } else {
                        "invalid approval secret"
                    },
                ),
            ),
        ),
{
}

/// In a consistent state every node that is approved and not revoked has a record under its name
/// with its own two addresses.
pub proof fn law_member_has_dns_record(state: StateView, node_id: Seq<char>)
    requires
        consistent(state),
        state.nodes.has(node_id),
        state.nodes.at(node_id).approved,
        state.nodes.at(node_id).revoked_at is None,
    ensures
        ({
            let node = state.nodes.at(node_id);
            let name = name_in_domain(node.name, state.networks.at(node.network_id).dns_domain);
            &&& parsed_ipv4(node.ipv4) is Some
            &&& parsed_ipv6(node.ipv6) is Some
            &&& record_of(node, state.networks) == Some(
                (
                    normalized_dns_name(name),
                    (
                        IpAddress::V4(parsed_ipv4(node.ipv4)->0),
                        IpAddress::V6(parsed_ipv6(node.ipv6)->0),
                    ),
                ),
            )
        }),
{
    let node = state.nodes.at(node_id);
    let network = state.networks.at(node.network_id);
    assert(node_sound(node_id, node, state.networks));
    let (o4, o6) = choose|o4: int, o6: int| #[trigger] placed_at(node, network, o4, o6);
    let v4 = (v4_of(network).first() + o4) as u32;
    law_dotted_is_read_back(v4);
    law_ip_text_is_read_back(v4, node.ipv6, (v6_of(network).first() + o6) as u128);
}

/// Approving a node a second time changes nothing, and the first approval stands: its time, and
/// that no secret is left.
pub proof fn law_approval_is_final(
    state: StateView,
    node_id: Seq<char>,
    secret: Option<Seq<char>>,
    now: i64,
    stamp: AuditStampView,
    again: Option<Seq<char>>,
    later: i64,
    other: AuditStampView,
)
    requires
        node_approved(state, node_id, secret, now, stamp).1 is Ok,
    ensures
        ({
            let once = node_approved(state, node_id, secret, now, stamp);
            let twice = node_approved(once.0, node_id, again, later, other);
            &&& twice.0 == once.0
            &&& twice.1 == once.1
            &&& !state.nodes.at(node_id).approved ==> {
                &&& once.0.nodes.at(node_id).auth_secret is None
                &&& once.0.nodes.at(node_id).approved_at == Some(now)
            }
        }),
{
}

/// A node that was revoked takes no part in its network, whatever the key policy, and none of the
/// keys that it has counts as current.
pub proof fn law_revoked_node_is_out(
    state: StateView,
    node_id: Seq<char>,
    now: i64,
    stamp: AuditStampView,
    policy: KeyRotationPolicyView,
    later: i64,
)
    requires
        node_revoked(state, node_id, now, stamp).1 is Ok,
    ensures
        ({
            let node = node_revoked(state, node_id, now, stamp).0.nodes.at(node_id);
            &&& node.revoked_at == Some(now)
            &&& !in_good_standing(node, policy, later)
            &&& key_made(node.key_history, node, KeyType::Machine) is None
            &&& key_made(node.key_history, node, KeyType::WireGuard) is None
        }),
{
    let before = state.nodes.at(node_id);
    let node = revoked_node(before, now);
    lemma_revoked_both(before.key_history, before, now, node);
}

proof fn lemma_revoked_both(
    history: Seq<KeyRecordView>,
    before: NodeStateView,
    now: i64,
    node: NodeStateView,
)
    requires
        node.machine_public_key == before.machine_public_key,
        node.wg_public_key == before.wg_public_key,
    ensures
        ({
            let after = key_revoked(
                key_revoked(history, KeyType::Machine, before.machine_public_key, now),
                KeyType::WireGuard,
                before.wg_public_key,
                now,
            );
            &&& key_made(after, node, KeyType::Machine) is None
            &&& key_made(after, node, KeyType::WireGuard) is None
        }),
    decreases history.len(),
{
    let once = key_revoked(history, KeyType::Machine, before.machine_public_key, now);
    let after = key_revoked(once, KeyType::WireGuard, before.wg_public_key, now);
    if history.len() > 0 {
        lemma_revoked_both(history.drop_first(), before, now, node);
        assert(once.drop_first() =~= key_revoked(
            history.drop_first(),
            KeyType::Machine,
            before.machine_public_key,
            now,
        ));
        assert(after.drop_first() =~= key_revoked(
            once.drop_first(),
            KeyType::WireGuard,
            before.wg_public_key,
            now,
        ));
    }
}

/// Records among which none is about the current key say nothing of it.
proof fn lemma_no_current(history: Seq<KeyRecordView>, node: NodeStateView, key_type: KeyType)
    requires
        forall|i: int| 0 <= i < history.len() ==> !is_current(#[trigger] history[i], node, key_type),
    ensures
        key_made(history, node, key_type) is None,
        forall|record: KeyRecordView| #[trigger]
            key_made(history.push(record), node, key_type) == (if is_current(
                record,
                node,
                key_type,
            ) {
                Some(record.created_at)
            } else {
                None
            }),
    decreases history.len(),
{
    if history.len() > 0 {
        let rest = history.drop_first();
        assert forall|i: int| 0 <= i < rest.len() implies !is_current(
            #[trigger] rest[i],
            node,
            key_type,
        ) by {
            assert(rest[i] == history[i + 1]);
        }
        assert(!is_current(history[0], node, key_type));
        lemma_no_current(rest, node, key_type);
        assert forall|record: KeyRecordView| #[trigger]
            key_made(history.push(record), node, key_type) == (if is_current(
            record,
            node,
            key_type,
        ) {
            Some(record.created_at)
        } else {
            None
        }) by {
            assert(history.push(record).drop_first() =~= rest.push(record));
            assert(key_made(rest.push(record), node, key_type) == (if is_current(
                record,
                node,
                key_type,
            ) {
                Some(record.created_at)
            } else {
                None
            }));
        }
    } else {
        assert forall|record: KeyRecordView| #[trigger]
            key_made(history.push(record), node, key_type) == (if is_current(
            record,
            node,
            key_type,
        ) {
            Some(record.created_at)
        } else {
            None
        }) by {
            let one = history.push(record);
            assert(one.len() == 1);
            assert(one[0] == record);
            assert(one.drop_first() =~= Seq::<KeyRecordView>::empty());
            assert(key_made(Seq::<KeyRecordView>::empty(), node, key_type) is None);
        }
    }
}

/// After one of its keys was replaced, a node has had the new key since then.
pub proof fn law_new_key_is_new(
    node: NodeStateView,
    key_type: KeyType,
    new_key: Seq<char>,
    now: i64,
)
    requires
        keys_tidy(node),
        key_for(node, key_type) != new_key,
    ensures
        ({
            let after = key_replaced(node, key_type, new_key, now);
            &&& key_for(after, key_type) == new_key
            &&& key_made(after.key_history, after, key_type) == Some(now)
        }),
{
    let after = key_replaced(node, key_type, new_key, now);
    let history = key_revoked(node.key_history, key_type, key_for(node, key_type), now);
    assert forall|i: int| 0 <= i < history.len() implies !is_current(
        #[trigger] history[i],
        after,
        key_type,
    ) by {
        let record = node.key_history[i];
        assert(record.revoked_at is None ==> record.public_key == key_for(node, record.key_type));
    }
    lemma_no_current(history, after, key_type);
    assert(after.key_history == history.push(fresh_key(key_type, new_key, now)));
}

/// A key that is not replaced stays as old as it was.
proof fn lemma_other_key_stays(
    history: Seq<KeyRecordView>,
    node: NodeStateView,
    key_type: KeyType,
    other: KeyType,
    record: KeyRecordView,
    old_key: Seq<char>,
    now: i64,
    after: NodeStateView,
)
    requires
        key_type != other,
        record.key_type == key_type,
        key_for(after, other) == key_for(node, other),
    ensures
        key_made(key_revoked(history, key_type, old_key, now).push(record), after, other)
            == key_made(history, node, other),
    decreases history.len(),
{
    let revoked = key_revoked(history, key_type, old_key, now);
    if history.len() > 0 {
        lemma_other_key_stays(
            history.drop_first(),
            node,
            key_type,
            other,
            record,
            old_key,
            now,
            after,
        );
        assert(revoked.push(record).drop_first() =~= key_revoked(
            history.drop_first(),
            key_type,
            old_key,
            now,
        ).push(record));
        assert(revoked.push(record)[0] == revoked[0]);
    } else {
        let one = revoked.push(record);
        assert(one.drop_first() =~= Seq::<KeyRecordView>::empty());
        assert(key_made(Seq::<KeyRecordView>::empty(), after, other) is None);
    }
}

/// A node that replaced both of its keys need not change them again until they are as old as the
/// policy grants, and must from then on.
pub proof fn law_new_keys_are_good_for_their_time(
    node: NodeStateView,
    machine: Seq<char>,
    wg: Seq<char>,
    now: i64,
    max_age: u64,
    later: i64,
)
    requires
        keys_tidy(node),
        node.machine_public_key != machine,
        node.wg_public_key != wg,
    ensures
        ({
            let first = key_replaced(node, KeyType::Machine, machine, now);
            let after = key_replaced(first, KeyType::WireGuard, wg, now);
            let policy = KeyRotationPolicyView { max_age_seconds: Some(max_age) };
            rotation_due(after, policy, later) <==> elapsed(later, now) > age_limit(max_age)
        }),
{
    let first = key_replaced(node, KeyType::Machine, machine, now);
    let after = key_replaced(first, KeyType::WireGuard, wg, now);
    law_new_key_is_new(node, KeyType::Machine, machine, now);
    assert(keys_tidy(first)) by {
        assert forall|i: int|
            0 <= i < first.key_history.len() && (#[trigger] first.key_history[i]).revoked_at
                is None implies first.key_history[i].public_key
            == key_for(first, first.key_history[i].key_type) by {
            if i < node.key_history.len() {
                let record = node.key_history[i];
                assert(record.revoked_at is None ==> record.public_key == key_for(
                    node,
                    record.key_type,
                ));
            }
        }
    }
    law_new_key_is_new(first, KeyType::WireGuard, wg, now);
    lemma_other_key_stays(
        first.key_history,
        first,
        KeyType::WireGuard,
        KeyType::Machine,
        fresh_key(KeyType::WireGuard, wg, now),
        first.wg_public_key,
        now,
        after,
    );
}

/// A network that was deleted is gone, with all of its tokens, and had no nodes; other networks and
/// their tokens stay as they were.
pub proof fn law_deleted_network_is_gone(
    state: StateView,
    network_id: Seq<char>,
    stamp: AuditStampView,
    token: Seq<char>,
    other: Seq<char>,
)
    requires
        state.wf(),
        network_deleted(state, network_id, stamp).1 is Ok,
        other != network_id,
    ensures
        ({
            let after = network_deleted(state, network_id, stamp).0;
            &&& !after.networks.has(network_id)
            &&& !has_nodes(after, network_id)
            &&& after.networks.find(other) == state.networks.find(other)
            &&& after.tokens.has(token) <==> state.tokens.has(token) && state.tokens.at(
                token,
            ).network_id != network_id
            &&& after.tokens.has(token) ==> after.tokens.at(token) == state.tokens.at(token)
        }),
{
    let keep = |token: TokenStateView| token.network_id != network_id;
    state.tokens.lemma_retain(keep);
    let after = network_deleted(state, network_id, stamp).0;
    assert(after.nodes == state.nodes);
}

/// A network with nodes is not deleted.
pub proof fn law_network_with_nodes_stays(
    state: StateView,
    network_id: Seq<char>,
    stamp: AuditStampView,
    node_id: Seq<char>,
)
    requires
        state.nodes.has(node_id),
        state.nodes.at(node_id).network_id == network_id,
    ensures
        network_deleted(state, network_id, stamp) == (
            state,
            Err::<(), ApiError>(
                if state.networks.has(network_id) {
                    ApiError::Conflict("network has connected nodes; revoke or delete nodes first")
                } else {
                    ApiError::NotFound("network")
                },
            ),
        ),
{
    assert(has_nodes(state, network_id));
}

/// The endpoints of a node are the one under which it was seen and those that it reports, each
/// once, the one under which it was seen first.
pub proof fn law_endpoints(provided: Seq<Seq<char>>, observed: Option<Seq<char>>, x: Seq<char>)
    ensures
        merged_endpoints(provided, observed).no_duplicates(),
        merged_endpoints(provided, observed).contains(x) <==> observed == Some(x)
            || provided.contains(x),
        observed matches Some(endpoint) ==> merged_endpoints(provided, observed).len() > 0
            && merged_endpoints(provided, observed)[0] == endpoint,
{
    let head = match observed {
        Some(endpoint) => seq![endpoint],
        None => Seq::empty(),
    };
    let all = head + provided;
    law_first_occurrences(all);
    assert(merged_endpoints(provided, observed).contains(x) <==> all.contains(x));
    if provided.contains(x) {
        assert(all[head.len() + provided.index_of(x)] == x);
    }
    if observed == Some(x) {
        assert(all[0] == x);
    }
    if all.contains(x) {
        let i = all.index_of(x);
        if i >= head.len() {
            assert(provided[i - head.len()] == x);
        }
    }
    if let Some(endpoint) = observed {
        lemma_first_stays_first(all);
    }
}

pub proof fn lemma_first_stays_first(s: Seq<Seq<char>>)
    requires
        s.len() > 0,
    ensures
        first_occurrences(s).len() > 0,
        first_occurrences(s)[0] == s[0],
    decreases s.len(),
{
    if s.len() > 1 {
        lemma_first_stays_first(s.drop_last());
    } else {
        assert(s.drop_last() =~= Seq::<Seq<char>>::empty());
        assert(first_occurrences(s.drop_last()) =~= Seq::<Seq<char>>::empty());
        assert(!s.drop_last().contains(s.last()));
    }
}

/// Whoever carries the administrator's token may speak for every node.
pub proof fn law_administrators_speak_for_nodes(
    headers: HeadersView,
    admin_token: Seq<char>,
    node: NodeStateView,
)
    requires
        admin_allowed(headers, Some(admin_token)),
    ensures
        node_allowed(headers, Some(admin_token), node),
{
}

/// Without the administrator's token and without the token of a node, a request may neither do what
/// administrators may nor speak for the node.
pub proof fn law_strangers_are_refused(
    headers: HeadersView,
    admin_token: Seq<char>,
    node: NodeStateView,
)
    requires
        node.node_token is Some,
        bearer_of(headers) != Some(admin_token),
        bearer_of(headers) != node.node_token,
    ensures
        !admin_allowed(headers, Some(admin_token)),
        !node_allowed(headers, Some(admin_token), node),
{
}

} // verus!
