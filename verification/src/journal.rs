//! What the log tells of each request.
use vstd::prelude::*;

use crate::auth::HeadersView;
use crate::enroll::{
    node_approved, registered, url_registered, RegisterDrawsView, RegisterUrlDrawsView,
};
use crate::model::{
    AuditDetailView, AuditEntryView, AuditValueView, CreateNetworkRequestView,
    CreateTokenRequestView, HeartbeatRequestView, KeyRotationPolicyView, KeyRotationRequestView,
    RegisterRequestView, RegisterUrlRequestView, UpdateAclRequestView, UpdateNodeRequestView,
};
use crate::net::IpAddress;
use crate::networks::{
    acl_updated, key_policy_updated, network_created, network_deleted, NetworkDrawsView,
};
use crate::nodes::{heard_from, keys_rotated, node_deleted, node_revoked, node_updated};
use crate::state::{AuditStampView, StateView};
use crate::tokens::{token_created, token_revoked};

verus! {

/// Whether the log has one entry more, with this mark, about this action, network and node.
pub open spec fn noted(
    before: StateView,
    after: StateView,
    stamp: AuditStampView,
    action: Seq<char>,
    network_id: Seq<char>,
    node_id: Option<Seq<char>>,
) -> bool {
    let entry = after.audit_log.last();
    &&& after.audit_log.len() == before.audit_log.len() + 1
    &&& after.audit_log.drop_last() == before.audit_log
    &&& entry.id == stamp.id
    &&& entry.timestamp == stamp.timestamp
    &&& entry.action == action
    &&& entry.network_id == Some(network_id)
    &&& entry.node_id == node_id
}

/// Whether an entry tells a value under a name, at a place among what it tells.
pub open spec fn tells(entry: AuditEntryView, at: int, name: Seq<char>, value: AuditValueView) -> bool {
    match entry.detail {
        Some(AuditDetailView::Fields(fields)) => 0 <= at < fields.len() && fields[at].name == name
            && fields[at].value == value,
        _ => false,
    }
}

/// How many values an entry tells.
pub open spec fn told(entry: AuditEntryView) -> int {
    match entry.detail {
        Some(AuditDetailView::Fields(fields)) => fields.len() as int,
        _ => 0,
    }
}

/// A text, or nothing where there is none.
pub open spec fn maybe_text(value: Option<Seq<char>>) -> AuditValueView {
    if value is Some {
        AuditValueView::Text(value->0)
    } else {
        AuditValueView::Null
    }
}

/// A number, or nothing where there is none.
pub open spec fn maybe_number(value: Option<u64>) -> AuditValueView {
    if value is Some {
        AuditValueView::UInt(value->0)
    } else {
        AuditValueView::Null
    }
}

/// Appending an entry leaves those before it.
proof fn lemma_noted(log: Seq<AuditEntryView>, entry: AuditEntryView)
    ensures
        log.push(entry).drop_last() == log,
        log.push(entry).last() == entry,
{
    assert(log.push(entry).drop_last() =~= log);
}

/// The log tells of a new network its name, whether it requires approval and how old keys may grow.
pub proof fn law_new_network_is_noted(
    state: StateView,
    req: CreateNetworkRequestView,
    draws: NetworkDrawsView,
)
    requires
        network_created(state, req, draws).1 is Ok,
    ensures
        ({
            let after = network_created(state, req, draws).0;
            let id = network_created(state, req, draws).1->Ok_0.network.id;
            let entry = after.audit_log.last();
            &&& noted(state, after, draws.stamp, "network.create"@, id, None)
            &&& told(entry) == 3
            &&& tells(entry, 0, "name"@, AuditValueView::Text(req.name))
            &&& tells(
                entry,
                1,
                "requires_approval"@,
                AuditValueView::Bool(req.requires_approval == Some(true)),
            )
            &&& tells(
                entry,
                2,
                "key_rotation_max_age_seconds"@,
                maybe_number(req.key_rotation_max_age_seconds),
            )
        }),
{
    lemma_noted(state.audit_log, network_created(state, req, draws).0.audit_log.last());
}

/// The log tells which network was deleted, whose rules were changed, and how old keys may now grow
/// in which network.
pub proof fn law_network_changes_are_noted(
    state: StateView,
    network_id: Seq<char>,
    acl: UpdateAclRequestView,
    policy: KeyRotationPolicyView,
    stamp: AuditStampView,
)
    requires
        state.networks.has(network_id),
    ensures
        ({
            let id = state.networks.at(network_id).id;
            let after = key_policy_updated(state, network_id, policy, stamp).0;
            let entry = after.audit_log.last();
            &&& network_deleted(state, network_id, stamp).1 is Ok ==> noted(
                state,
                network_deleted(state, network_id, stamp).0,
                stamp,
                "network.delete"@,
                network_id,
                None,
            )
            &&& noted(
                state,
                acl_updated(state, network_id, acl, stamp).0,
                stamp,
                "acl.update"@,
                id,
                None,
            )
            &&& noted(state, after, stamp, "key_policy.update"@, id, None)
            &&& told(entry) == 1
            &&& tells(entry, 0, "max_age_seconds"@, maybe_number(policy.max_age_seconds))
        }),
{
    lemma_noted(state.audit_log, network_deleted(state, network_id, stamp).0.audit_log.last());
    lemma_noted(state.audit_log, acl_updated(state, network_id, acl, stamp).0.audit_log.last());
    lemma_noted(
        state.audit_log,
        key_policy_updated(state, network_id, policy, stamp).0.audit_log.last(),
    );
}

/// The log tells of a new token when it expires, how often it may be used, its tags and its owner,
/// but not its secret; and of a revoked one, when that was.
pub proof fn law_tokens_are_noted(
    state: StateView,
    network_id: Seq<char>,
    req: CreateTokenRequestView,
    secret: Seq<char>,
    now: i64,
    stamp: AuditStampView,
    token_id: Seq<char>,
)
    ensures
        token_created(state, network_id, req, secret, now, stamp).1 is Ok ==> {
            let after = token_created(state, network_id, req, secret, now, stamp).0;
            let token = after.tokens.at(secret);
            let entry = after.audit_log.last();
            &&& noted(state, after, stamp, "token.create"@, token.network_id, None)
            &&& told(entry) == 6
            &&& tells(entry, 0, "expires_at"@, AuditValueView::Int(token.expires_at))
            &&& tells(entry, 1, "uses"@, AuditValueView::UInt(req.uses as u64))
            &&& tells(entry, 2, "tags"@, AuditValueView::TextList(req.tags))
            &&& tells(entry, 3, "owner_user_id"@, maybe_text(token.owner_user_id))
            &&& tells(entry, 4, "owner_email"@, maybe_text(token.owner_email))
            &&& tells(
                entry,
                5,
                "owner_is_admin"@,
                AuditValueView::Bool(req.owner_is_admin != Some(false)),
            )
        },
        state.tokens.has(token_id) ==> {
            let after = token_revoked(state, token_id, now, stamp).0;
            let entry = after.audit_log.last();
            &&& noted(
                state,
                after,
                stamp,
                "token.revoke"@,
                state.tokens.at(token_id).network_id,
                None,
            )
            &&& told(entry) == 1
            &&& tells(entry, 0, "revoked_at"@, AuditValueView::Int(now))
        },
{
    lemma_noted(
        state.audit_log,
        token_created(state, network_id, req, secret, now, stamp).0.audit_log.last(),
    );
    lemma_noted(state.audit_log, token_revoked(state, token_id, now, stamp).0.audit_log.last());
}

/// The log tells of a node that joined whether it is approved and who owns it.
pub proof fn law_joining_is_noted(
    state: StateView,
    req: RegisterRequestView,
    draws: RegisterDrawsView,
)
    requires
        registered(state, req, draws).1 is Ok,
    ensures
        ({
            let after = registered(state, req, draws).0;
            let node = after.nodes.at(draws.node_id);
            let entry = after.audit_log.last();
            &&& noted(
                state,
                after,
                draws.stamp,
                "node.register"@,
                node.network_id,
                Some(draws.node_id),
            )
            &&& told(entry) == 4
            &&& tells(entry, 0, "approved"@, AuditValueView::Bool(node.approved))
            &&& tells(entry, 1, "owner_user_id"@, maybe_text(node.owner_user_id))
            &&& tells(entry, 2, "owner_email"@, maybe_text(node.owner_email))
            &&& tells(entry, 3, "owner_is_admin"@, AuditValueView::Bool(node.owner_is_admin))
        }),
{
    lemma_noted(state.audit_log, registered(state, req, draws).0.audit_log.last());
}

/// The log tells of a node that waits until when it does.
pub proof fn law_waiting_is_noted(
    state: StateView,
    req: RegisterUrlRequestView,
    draws: RegisterUrlDrawsView,
)
    requires
        url_registered(state, req, draws).1 is Ok,
    ensures
        ({
            let after = url_registered(state, req, draws).0;
            let answer = url_registered(state, req, draws).1->Ok_0;
            let entry = after.audit_log.last();
            &&& noted(
                state,
                after,
                draws.stamp,
                "node.register_url"@,
                answer.network_id,
                Some(draws.node_id),
            )
            &&& told(entry) == 1
            &&& tells(entry, 0, "expires_at"@, AuditValueView::Int(answer.expires_at))
        }),
{
    lemma_noted(state.audit_log, url_registered(state, req, draws).0.audit_log.last());
}

/// The log tells of an approved node when it was approved, and whether by its secret or by an
/// administrator.
pub proof fn law_approval_is_noted(
    state: StateView,
    node_id: Seq<char>,
    secret: Option<Seq<char>>,
    now: i64,
    stamp: AuditStampView,
)
    requires
        state.nodes.has(node_id),
        node_approved(state, node_id, secret, now, stamp).1 is Ok,
    ensures
        ({
            let after = node_approved(state, node_id, secret, now, stamp).0;
            let node = state.nodes.at(node_id);
            let entry = after.audit_log.last();
            &&& node.approved ==> after.audit_log == state.audit_log
            &&& !node.approved ==> {
                &&& noted(state, after, stamp, "node.approve"@, node.network_id, Some(node.id))
                &&& told(entry) == 2
                &&& tells(entry, 0, "approved_at"@, AuditValueView::Int(now))
                &&& secret is Some ==> tells(entry, 1, "via"@, AuditValueView::Text("auth_url"@))
                &&& secret is None ==> tells(entry, 1, "via"@, AuditValueView::Text("admin"@))
            }
        }),
{
    lemma_noted(
        state.audit_log,
        node_approved(state, node_id, secret, now, stamp).0.audit_log.last(),
    );
}

/// The log tells of a changed node what was changed, and has no entry where nothing was.
pub proof fn law_node_change_is_noted(
    state: StateView,
    node_id: Seq<char>,
    req: UpdateNodeRequestView,
    now: i64,
    stamp: AuditStampView,
)
    requires
        node_updated(state, node_id, req, now, stamp).1 is Ok,
    ensures
        ({
            let after = node_updated(state, node_id, req, now, stamp).0;
            let before = state.nodes.at(node_id);
            let node = after.nodes.at(node_id);
            let entry = after.audit_log.last();
            let renamed = node.name != before.name;
            let retagged = node.tags != before.tags;
            &&& !renamed && !retagged ==> after.audit_log == state.audit_log
            &&& renamed || retagged ==> noted(
                state,
                after,
                stamp,
                "node.update"@,
                state.networks.at(node.network_id).id,
                Some(node.id),
            )
            &&& renamed ==> tells(entry, 0, "name"@, AuditValueView::Text(node.name))
            &&& retagged ==> tells(
                entry,
                told(entry) - 1,
                "tags"@,
                AuditValueView::TextList(node.tags),
            )
            &&& renamed && retagged ==> told(entry) == 2
            &&& renamed != retagged ==> told(entry) == 1
        }),
{
    lemma_noted(
        state.audit_log,
        node_updated(state, node_id, req, now, stamp).0.audit_log.last(),
    );
}

/// The log tells which keys of a node were changed, and to what.
pub proof fn law_key_change_is_noted(
    state: StateView,
    node_id: Seq<char>,
    req: KeyRotationRequestView,
    headers: HeadersView,
    admin_token: Option<Seq<char>>,
    now: i64,
    stamp: AuditStampView,
)
    requires
        keys_rotated(state, node_id, req, headers, admin_token, now, stamp).1 is Ok,
    ensures
        ({
            let after = keys_rotated(state, node_id, req, headers, admin_token, now, stamp).0;
            let node = state.nodes.at(node_id);
            let entry = after.audit_log.last();
            &&& noted(state, after, stamp, "keys.rotate"@, node.network_id, Some(node.id))
            &&& req.machine_public_key matches Some(key) ==> tells(
                entry,
                0,
                "machine"@,
                AuditValueView::Text(key),
            )
            &&& req.wg_public_key matches Some(key) ==> tells(
                entry,
                told(entry) - 1,
                "wireguard"@,
                AuditValueView::Text(key),
            )
            &&& req.machine_public_key is Some && req.wg_public_key is Some ==> told(entry) == 2
            &&& req.machine_public_key is None || req.wg_public_key is None ==> told(entry) == 1
        }),
{
    lemma_noted(
        state.audit_log,
        keys_rotated(
            state,
            node_id,
            req,
            headers,
            admin_token,
            now,
            stamp,
        ).0.audit_log.last(),
    );
}

/// The log tells which node was revoked and when, and of a deleted one its name and addresses. A
/// report of a node is not noted.
pub proof fn law_node_ends_are_noted(
    state: StateView,
    node_id: Seq<char>,
    now: i64,
    stamp: AuditStampView,
    req: HeartbeatRequestView,
    headers: HeadersView,
    admin_token: Option<Seq<char>>,
    remote: IpAddress,
)
    requires
        state.nodes.has(node_id),
    ensures
        ({
            let node = state.nodes.at(node_id);
            let revoked = node_revoked(state, node_id, now, stamp).0;
            let deleted = node_deleted(state, node_id, stamp).0;
            &&& noted(state, revoked, stamp, "keys.revoke"@, node.network_id, Some(node.id))
            &&& told(revoked.audit_log.last()) == 1
            &&& tells(revoked.audit_log.last(), 0, "revoked_at"@, AuditValueView::Int(now))
            &&& noted(state, deleted, stamp, "node.delete"@, node.network_id, Some(node.id))
            &&& told(deleted.audit_log.last()) == 3
            &&& tells(deleted.audit_log.last(), 0, "name"@, AuditValueView::Text(node.name))
            &&& tells(deleted.audit_log.last(), 1, "ipv4"@, AuditValueView::Text(node.ipv4))
            &&& tells(deleted.audit_log.last(), 2, "ipv6"@, AuditValueView::Text(node.ipv6))
            &&& heard_from(state, req, headers, admin_token, remote, now).0.audit_log
                == state.audit_log
        }),
{
    lemma_noted(state.audit_log, node_revoked(state, node_id, now, stamp).0.audit_log.last());
    lemma_noted(state.audit_log, node_deleted(state, node_id, stamp).0.audit_log.last());
}

} // verus!
