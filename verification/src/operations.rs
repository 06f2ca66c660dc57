//! Everything that can be done to the state, and what holds of all of it.
use vstd::prelude::*;

use crate::auth::{node_allowed, HeadersView};
use crate::consistency::{consistent, network_sound, node_sound};
use crate::enroll::{
    allocated, approval_ttl, bears_name, name_taken, node_approved, normalized_name, registered,
    token_refusal, url_registered, RegisterDrawsView, RegisterUrlDrawsView,
};
use crate::error::ApiError;
use crate::model::{
    AuditEntryView, CreateNetworkRequestView, CreateTokenRequestView, HeartbeatRequestView,
    KeyRotationPolicyView, KeyRotationRequestView, NetworkStateView, NodeStateView,
    RegisterRequestView, RegisterUrlRequestView, UpdateAclRequestView, UpdateNodeRequestView,
};
use crate::net::IpAddress;
use crate::networks::{
    acl_updated, bootstrap_token, key_policy_updated, network_created, network_deleted, new_network,
    range_conflict, NetworkDrawsView,
};
use crate::nodes::{
    heard_from, keys_rotated, next_name, next_tags, node_deleted, node_revoked, node_updated,
    renamed,
};
use crate::state::{written, AuditStampView, StateView};
use crate::table::TableView;
use crate::text::{ascii_lower, same_ignoring_case};
use crate::tokens::{token_created, token_revoked};

verus! {

/// Something that can be done to the state, with what is drawn for it.
#[allow(inconsistent_fields)]
pub enum Operation {
    CreateNetwork { req: CreateNetworkRequestView, draws: NetworkDrawsView },
    DeleteNetwork { network_id: Seq<char>, stamp: AuditStampView },
    UpdateAcl { network_id: Seq<char>, req: UpdateAclRequestView, stamp: AuditStampView },
    UpdateKeyPolicy { network_id: Seq<char>, req: KeyRotationPolicyView, stamp: AuditStampView },
    CreateToken {
        network_id: Seq<char>,
        req: CreateTokenRequestView,
        secret: Seq<char>,
        now: i64,
        stamp: AuditStampView,
    },
    RevokeToken { token_id: Seq<char>, now: i64, stamp: AuditStampView },
    Register { req: RegisterRequestView, draws: RegisterDrawsView },
    RegisterUrl { req: RegisterUrlRequestView, draws: RegisterUrlDrawsView },
    Approve {
        node_id: Seq<char>,
        secret: Option<Seq<char>>,
        now: i64,
        stamp: AuditStampView,
    },
    UpdateNode { node_id: Seq<char>, req: UpdateNodeRequestView, now: i64, stamp: AuditStampView },
    RotateKeys {
        node_id: Seq<char>,
        req: KeyRotationRequestView,
        headers: HeadersView,
        admin_token: Option<Seq<char>>,
        now: i64,
        stamp: AuditStampView,
    },
    RevokeNode { node_id: Seq<char>, now: i64, stamp: AuditStampView },
    DeleteNode { node_id: Seq<char>, stamp: AuditStampView },
    Heartbeat {
        req: HeartbeatRequestView,
        headers: HeadersView,
        admin_token: Option<Seq<char>>,
        remote: IpAddress,
        now: i64,
    },
}

/// The state after something, and why it was refused, if it was.
pub open spec fn refusal_of<R>(outcome: (StateView, Result<R, ApiError>)) -> (
    StateView,
    Option<ApiError>,
) {
    match written(outcome) {
        (state, Ok(_)) => (state, None),
        (state, Err(refusal)) => (state, Some(refusal)),
    }
}

/// The state after an operation, and why it was refused, if it was.
pub open spec fn performed(state: StateView, op: Operation) -> (StateView, Option<ApiError>) {
    match op {
        Operation::CreateNetwork { req, draws } => refusal_of(network_created(state, req, draws)),
        Operation::DeleteNetwork { network_id, stamp } => refusal_of(
            network_deleted(state, network_id, stamp),
        ),
        Operation::UpdateAcl { network_id, req, stamp } => refusal_of(
            acl_updated(state, network_id, req, stamp),
        ),
        Operation::UpdateKeyPolicy { network_id, req, stamp } => refusal_of(
            key_policy_updated(state, network_id, req, stamp),
        ),
        Operation::CreateToken { network_id, req, secret, now, stamp } => refusal_of(
            token_created(state, network_id, req, secret, now, stamp),
        ),
        Operation::RevokeToken { token_id, now, stamp } => refusal_of(
            token_revoked(state, token_id, now, stamp),
        ),
        Operation::Register { req, draws } => refusal_of(registered(state, req, draws)),
        Operation::RegisterUrl { req, draws } => refusal_of(url_registered(state, req, draws)),
        Operation::Approve { node_id, secret, now, stamp } => refusal_of(
            node_approved(state, node_id, secret, now, stamp),
        ),
        Operation::UpdateNode { node_id, req, now, stamp } => refusal_of(
            node_updated(state, node_id, req, now, stamp),
        ),
        Operation::RotateKeys { node_id, req, headers, admin_token, now, stamp } => refusal_of(
            keys_rotated(state, node_id, req, headers, admin_token, now, stamp),
        ),
        Operation::RevokeNode { node_id, now, stamp } => refusal_of(
            node_revoked(state, node_id, now, stamp),
        ),
        Operation::DeleteNode { node_id, stamp } => refusal_of(
            node_deleted(state, node_id, stamp),
        ),
        Operation::Heartbeat { req, headers, admin_token, remote, now } => refusal_of(
            heard_from(state, req, headers, admin_token, remote, now),
        ),
    }
}

/// Whether a state has the same revision and version as another, and a log with at most one entry
/// more.
pub open spec fn same_but_one_entry(before: StateView, after: StateView) -> bool {
    &&& after.revision == before.revision
    &&& after.version == before.version
    &&& after.audit_log == before.audit_log || exists|entry: AuditEntryView|
        after.audit_log == #[trigger] before.audit_log.push(entry)
}

/// One more entry is one more entry.
proof fn lemma_logged(before: StateView, after: StateView, entry: AuditEntryView)
    requires
        after.revision == before.revision,
        after.version == before.version,
        after.audit_log == before.audit_log.push(entry),
    ensures
        same_but_one_entry(before, after),
{
}

/// The state that an operation leaves, before the write is counted.
pub open spec fn uncounted(state: StateView, op: Operation) -> StateView {
    match op {
        Operation::CreateNetwork { req, draws } => network_created(state, req, draws).0,
        Operation::DeleteNetwork { network_id, stamp } => network_deleted(
            state,
            network_id,
            stamp,
        ).0,
        Operation::UpdateAcl { network_id, req, stamp } => acl_updated(
            state,
            network_id,
            req,
            stamp,
        ).0,
        Operation::UpdateKeyPolicy { network_id, req, stamp } => key_policy_updated(
            state,
            network_id,
            req,
            stamp,
        ).0,
        Operation::CreateToken { network_id, req, secret, now, stamp } => token_created(
            state,
            network_id,
            req,
            secret,
            now,
            stamp,
        ).0,
        Operation::RevokeToken { token_id, now, stamp } => token_revoked(
            state,
            token_id,
            now,
            stamp,
        ).0,
        Operation::Register { req, draws } => registered(state, req, draws).0,
        Operation::RegisterUrl { req, draws } => url_registered(state, req, draws).0,
        Operation::Approve { node_id, secret, now, stamp } => node_approved(
            state,
            node_id,
            secret,
            now,
            stamp,
        ).0,
        Operation::UpdateNode { node_id, req, now, stamp } => node_updated(
            state,
            node_id,
            req,
            now,
            stamp,
        ).0,
        Operation::RotateKeys { node_id, req, headers, admin_token, now, stamp } => keys_rotated(
            state,
            node_id,
            req,
            headers,
            admin_token,
            now,
            stamp,
        ).0,
        Operation::RevokeNode { node_id, now, stamp } => node_revoked(
            state,
            node_id,
            now,
            stamp,
        ).0,
        Operation::DeleteNode { node_id, stamp } => node_deleted(state, node_id, stamp).0,
        Operation::Heartbeat { req, headers, admin_token, remote, now } => heard_from(
            state,
            req,
            headers,
            admin_token,
            remote,
            now,
        ).0,
    }
}

/// Counting a write changes the revision alone.
#[verifier::rlimit(40)]
pub proof fn lemma_counted(state: StateView, op: Operation)
    ensures
        performed(state, op).0 == (if performed(state, op).1 is None {
            uncounted(state, op).bumped()
        } else {
            uncounted(state, op)
        }),
{
}

/// A network that gives addresses keeps everything but what it gives next.
proof fn lemma_allocated_keeps(network: NetworkStateView)
    ensures
        same_ranges(network, allocated(network).0),
{
}

/// Whether two networks have the same ranges and the same domain.
pub open spec fn same_ranges(a: NetworkStateView, b: NetworkStateView) -> bool {
    a.overlay_v4 == b.overlay_v4 && a.overlay_v6 == b.overlay_v6 && a.dns_domain == b.dns_domain
}

/// Whether a network has the same ranges and the same domain in two states that both know it.
pub open spec fn same_ranges_at(before: StateView, after: StateView, id: Seq<char>) -> bool {
    before.networks.has(id) && after.networks.has(id) ==> same_ranges(
        before.networks.at(id),
        after.networks.at(id),
    )
}

proof fn lemma_network_created_frame(
    state: StateView,
    req: CreateNetworkRequestView,
    draws: NetworkDrawsView,
    k: Seq<char>,
)
    ensures
        ({
            let after = network_created(state, req, draws).0;
            &&& same_but_one_entry(state, after)
            &&& after.nodes.find(k) == state.nodes.find(k)
            &&& same_ranges_at(state, after, k)
        }),
{
    let after = network_created(state, req, draws).0;
    if after.audit_log != state.audit_log {
        lemma_logged(state, after, after.audit_log.last());
    }
}

proof fn lemma_network_deleted_frame(
    state: StateView,
    network_id: Seq<char>,
    stamp: AuditStampView,
    k: Seq<char>,
)
    ensures
        ({
            let after = network_deleted(state, network_id, stamp).0;
            &&& same_but_one_entry(state, after)
            &&& after.nodes.find(k) == state.nodes.find(k)
            &&& same_ranges_at(state, after, k)
        }),
{
    let after = network_deleted(state, network_id, stamp).0;
    if after.audit_log != state.audit_log {
        lemma_logged(state, after, after.audit_log.last());
    }
}

proof fn lemma_acl_updated_frame(
    state: StateView,
    network_id: Seq<char>,
    req: UpdateAclRequestView,
    stamp: AuditStampView,
    k: Seq<char>,
)
    ensures
        ({
            let after = acl_updated(state, network_id, req, stamp).0;
            &&& same_but_one_entry(state, after)
            &&& after.nodes.find(k) == state.nodes.find(k)
            &&& same_ranges_at(state, after, k)
        }),
{
    let after = acl_updated(state, network_id, req, stamp).0;
    if after.audit_log != state.audit_log {
        lemma_logged(state, after, after.audit_log.last());
    }
}

proof fn lemma_key_policy_updated_frame(
    state: StateView,
    network_id: Seq<char>,
    req: KeyRotationPolicyView,
    stamp: AuditStampView,
    k: Seq<char>,
)
    ensures
        ({
            let after = key_policy_updated(state, network_id, req, stamp).0;
            &&& same_but_one_entry(state, after)
            &&& after.nodes.find(k) == state.nodes.find(k)
            &&& same_ranges_at(state, after, k)
        }),
{
    let after = key_policy_updated(state, network_id, req, stamp).0;
    if after.audit_log != state.audit_log {
        lemma_logged(state, after, after.audit_log.last());
    }
}

proof fn lemma_token_created_frame(
    state: StateView,
    network_id: Seq<char>,
    req: CreateTokenRequestView,
    secret: Seq<char>,
    now: i64,
    stamp: AuditStampView,
    k: Seq<char>,
)
    ensures
        ({
            let after = token_created(state, network_id, req, secret, now, stamp).0;
            &&& same_but_one_entry(state, after)
            &&& after.nodes.find(k) == state.nodes.find(k)
            &&& same_ranges_at(state, after, k)
        }),
{
    let after = token_created(state, network_id, req, secret, now, stamp).0;
    if after.audit_log != state.audit_log {
        lemma_logged(state, after, after.audit_log.last());
    }
}

proof fn lemma_token_revoked_frame(
    state: StateView,
    token_id: Seq<char>,
    now: i64,
    stamp: AuditStampView,
    k: Seq<char>,
)
    ensures
        ({
            let after = token_revoked(state, token_id, now, stamp).0;
            &&& same_but_one_entry(state, after)
            &&& after.nodes.find(k) == state.nodes.find(k)
            &&& same_ranges_at(state, after, k)
        }),
{
    let after = token_revoked(state, token_id, now, stamp).0;
    if after.audit_log != state.audit_log {
        lemma_logged(state, after, after.audit_log.last());
    }
}

proof fn lemma_registered_frame(
    state: StateView,
    req: RegisterRequestView,
    draws: RegisterDrawsView,
    k: Seq<char>,
)
    ensures
        ({
            let after = registered(state, req, draws).0;
            &&& same_but_one_entry(state, after)
            &&& draws.node_id != k ==> after.nodes.find(k) == state.nodes.find(k)
            &&& same_ranges_at(state, after, k)
        }),
{
    let after = registered(state, req, draws).0;
    let id = state.tokens.at(req.token).network_id;
    lemma_allocated_keeps(state.networks.at(id));
    if after.audit_log != state.audit_log {
        lemma_logged(state, after, after.audit_log.last());
    }
}

proof fn lemma_url_registered_frame(
    state: StateView,
    req: RegisterUrlRequestView,
    draws: RegisterUrlDrawsView,
    k: Seq<char>,
)
    ensures
        ({
            let after = url_registered(state, req, draws).0;
            &&& same_but_one_entry(state, after)
            &&& draws.node_id != k ==> after.nodes.find(k) == state.nodes.find(k)
            &&& same_ranges_at(state, after, k)
        }),
{
    let after = url_registered(state, req, draws).0;
    lemma_allocated_keeps(state.networks.at(req.network_id));
    if after.audit_log != state.audit_log {
        lemma_logged(state, after, after.audit_log.last());
    }
}

proof fn lemma_node_approved_frame(
    state: StateView,
    node_id: Seq<char>,
    secret: Option<Seq<char>>,
    now: i64,
    stamp: AuditStampView,
    k: Seq<char>,
)
    ensures
        ({
            let after = node_approved(state, node_id, secret, now, stamp).0;
            &&& same_but_one_entry(state, after)
            &&& node_id != k ==> after.nodes.find(k) == state.nodes.find(k)
            &&& same_ranges_at(state, after, k)
        }),
{
    let after = node_approved(state, node_id, secret, now, stamp).0;
    if after.audit_log != state.audit_log {
        lemma_logged(state, after, after.audit_log.last());
    }
}

proof fn lemma_node_updated_frame(
    state: StateView,
    node_id: Seq<char>,
    req: UpdateNodeRequestView,
    now: i64,
    stamp: AuditStampView,
    k: Seq<char>,
)
    ensures
        ({
            let after = node_updated(state, node_id, req, now, stamp).0;
            &&& same_but_one_entry(state, after)
            &&& node_id != k ==> after.nodes.find(k) == state.nodes.find(k)
            &&& same_ranges_at(state, after, k)
        }),
{
    let after = node_updated(state, node_id, req, now, stamp).0;
    if after.audit_log != state.audit_log {
        lemma_logged(state, after, after.audit_log.last());
    }
}

proof fn lemma_keys_rotated_frame(
    state: StateView,
    node_id: Seq<char>,
    req: KeyRotationRequestView,
    headers: HeadersView,
    admin_token: Option<Seq<char>>,
    now: i64,
    stamp: AuditStampView,
    k: Seq<char>,
)
    ensures
        ({
            let after = keys_rotated(state, node_id, req, headers, admin_token, now, stamp).0;
            &&& same_but_one_entry(state, after)
            &&& node_id != k ==> after.nodes.find(k) == state.nodes.find(k)
            &&& same_ranges_at(state, after, k)
        }),
{
    let after = keys_rotated(state, node_id, req, headers, admin_token, now, stamp).0;
    if after.audit_log != state.audit_log {
        lemma_logged(state, after, after.audit_log.last());
    }
}

proof fn lemma_node_revoked_frame(
    state: StateView,
    node_id: Seq<char>,
    now: i64,
    stamp: AuditStampView,
    k: Seq<char>,
)
    ensures
        ({
            let after = node_revoked(state, node_id, now, stamp).0;
            &&& same_but_one_entry(state, after)
            &&& node_id != k ==> after.nodes.find(k) == state.nodes.find(k)
            &&& same_ranges_at(state, after, k)
        }),
{
    let after = node_revoked(state, node_id, now, stamp).0;
    if after.audit_log != state.audit_log {
        lemma_logged(state, after, after.audit_log.last());
    }
}

proof fn lemma_node_deleted_frame(
    state: StateView,
    node_id: Seq<char>,
    stamp: AuditStampView,
    k: Seq<char>,
)
    ensures
        ({
            let after = node_deleted(state, node_id, stamp).0;
            &&& same_but_one_entry(state, after)
            &&& node_id != k ==> after.nodes.find(k) == state.nodes.find(k)
            &&& same_ranges_at(state, after, k)
        }),
{
    let after = node_deleted(state, node_id, stamp).0;
    if after.audit_log != state.audit_log {
        lemma_logged(state, after, after.audit_log.last());
    }
}

proof fn lemma_heard_from_frame(
    state: StateView,
    req: HeartbeatRequestView,
    headers: HeadersView,
    admin_token: Option<Seq<char>>,
    remote: IpAddress,
    now: i64,
    k: Seq<char>,
)
    ensures
        ({
            let after = heard_from(state, req, headers, admin_token, remote, now).0;
            &&& same_but_one_entry(state, after)
            &&& req.node_id != k ==> after.nodes.find(k) == state.nodes.find(k)
            &&& same_ranges_at(state, after, k)
        }),
{
    let after = heard_from(state, req, headers, admin_token, remote, now).0;
    if after.audit_log != state.audit_log {
        lemma_logged(state, after, after.audit_log.last());
    }
}

/// What every operation leaves alone: all but one entry of the log, the nodes that it is not about,
/// and the ranges of networks.
proof fn lemma_frame(state: StateView, op: Operation, k: Seq<char>)
    ensures
        same_but_one_entry(state, uncounted(state, op)),
        !about_node(state, op, k) ==> uncounted(state, op).nodes.find(k) == state.nodes.find(k),
        same_ranges_at(state, uncounted(state, op), k),
{
    match op {
        Operation::CreateNetwork { req, draws } => {
            lemma_network_created_frame(state, req, draws, k);
        },
        Operation::DeleteNetwork { network_id, stamp } => {
            lemma_network_deleted_frame(state, network_id, stamp, k);
        },
        Operation::UpdateAcl { network_id, req, stamp } => {
            lemma_acl_updated_frame(state, network_id, req, stamp, k);
        },
        Operation::UpdateKeyPolicy { network_id, req, stamp } => {
            lemma_key_policy_updated_frame(state, network_id, req, stamp, k);
        },
        Operation::CreateToken { network_id, req, secret, now, stamp } => {
            lemma_token_created_frame(state, network_id, req, secret, now, stamp, k);
        },
        Operation::RevokeToken { token_id, now, stamp } => {
            lemma_token_revoked_frame(state, token_id, now, stamp, k);
        },
        Operation::Register { req, draws } => {
            lemma_registered_frame(state, req, draws, k);
        },
        Operation::RegisterUrl { req, draws } => {
            lemma_url_registered_frame(state, req, draws, k);
        },
        Operation::Approve { node_id, secret, now, stamp } => {
            lemma_node_approved_frame(state, node_id, secret, now, stamp, k);
        },
        Operation::UpdateNode { node_id, req, now, stamp } => {
            lemma_node_updated_frame(state, node_id, req, now, stamp, k);
        },
        Operation::RotateKeys { node_id, req, headers, admin_token, now, stamp } => {
            lemma_keys_rotated_frame(state, node_id, req, headers, admin_token, now, stamp, k);
        },
        Operation::RevokeNode { node_id, now, stamp } => {
            lemma_node_revoked_frame(state, node_id, now, stamp, k);
        },
        Operation::DeleteNode { node_id, stamp } => {
            lemma_node_deleted_frame(state, node_id, stamp, k);
        },
        Operation::Heartbeat { req, headers, admin_token, remote, now } => {
            lemma_heard_from_frame(state, req, headers, admin_token, remote, now, k);
        },
    }
}

/// The log is only ever added to, and an operation adds at most one entry.
pub proof fn law_log_only_grows(state: StateView, op: Operation)
    ensures
        state.audit_log.is_prefix_of(performed(state, op).0.audit_log),
        performed(state, op).0.audit_log.len() <= state.audit_log.len() + 1,
{
    let before = state.audit_log;
    let after = performed(state, op).0.audit_log;
    lemma_counted(state, op);
    lemma_frame(state, op, Seq::empty());
    assert(before =~= after.subrange(0, before.len() as int));
}

/// An operation that succeeds counts as one write, and one that is refused does not count.
pub proof fn law_revision_counts_writes(state: StateView, op: Operation)
    ensures
        performed(state, op).1 is Some ==> performed(state, op).0.revision == state.revision,
        performed(state, op).1 is None ==> performed(state, op).0.revision == (if state.revision
            == u64::MAX {
            state.revision as int
        } else {
            state.revision + 1
        }),
        performed(state, op).0.version == state.version,
{
    lemma_counted(state, op);
    lemma_frame(state, op, Seq::empty());
}

/// Whether a network spends an IPv4 address and then has no IPv6 address to go with it.
pub open spec fn address_lost(network: NetworkStateView) -> bool {
    allocated(network).1 is Err && allocated(network).0 != network
}

/// Whether an operation leaves something behind though it is refused: a network whose first token
/// is refused; an IPv4 address spent where no IPv6 address is left; a name or tags given to a node
/// whose network is not known; a machine key replaced beside a WireGuard key that is refused.
pub open spec fn leaves_something(state: StateView, op: Operation) -> bool {
    match op {
        Operation::CreateNetwork { req, draws } => match new_network(req, draws) {
            Ok((network, v4, v6)) => {
                &&& !state.networks.has(network.id)
                &&& range_conflict(state.networks.values(), v4, v6) is None
                &&& bootstrap_token(network.id, req, draws) matches Some(Err(_))
            },
            Err(_) => false,
        },
        Operation::Register { req, draws } => {
            let network_id = state.tokens.at(req.token).network_id;
            &&& token_refusal(state.tokens.find(req.token), draws.now) is None
            &&& normalized_name(req.node_name) matches Ok(name) && !name_taken(
                state,
                network_id,
                name,
                None,
            )
            &&& state.networks.has(network_id)
            &&& address_lost(state.networks.at(network_id))
        },
        Operation::RegisterUrl { req, .. } => {
            &&& approval_ttl(req) > 0
            &&& normalized_name(req.node_name) matches Ok(name) && !name_taken(
                state,
                req.network_id,
                name,
                None,
            )
            &&& state.networks.has(req.network_id)
            &&& address_lost(state.networks.at(req.network_id))
        },
        Operation::UpdateNode { node_id, req, .. } => {
            let node = state.nodes.at(node_id);
            &&& state.nodes.has(node_id)
            &&& !state.networks.has(node.network_id)
            &&& next_name(state, node, req.name) matches Ok(name) && renamed(
                node,
                name,
                next_tags(node, req.tags),
            ) != node
        },
        Operation::RotateKeys { node_id, req, headers, admin_token, .. } => {
            let node = state.nodes.at(node_id);
            &&& state.nodes.has(node_id)
            &&& node_allowed(headers, admin_token, node)
            &&& req.machine_public_key is Some
            &&& req.machine_public_key != Some(node.machine_public_key)
            &&& req.wg_public_key == Some(node.wg_public_key)
        },
        _ => false,
    }
}

/// Giving a key the value that it has changes nothing.
proof fn lemma_insert_same<V>(table: TableView<V>, k: Seq<char>)
    requires
        table.has(k),
    ensures
        table.insert(k, table.at(k)) == table,
{
    assert(table.insert(k, table.at(k)).map =~= table.map);
}

proof fn lemma_network_created_refused(
    state: StateView,
    req: CreateNetworkRequestView,
    draws: NetworkDrawsView,
)
    requires
        network_created(state, req, draws).1 is Err,
    ensures
        network_created(state, req, draws).0 == state <==> !leaves_something(
            state,
            Operation::CreateNetwork { req, draws },
        ),
{
    let after = network_created(state, req, draws).0;
    if leaves_something(state, Operation::CreateNetwork { req, draws }) {
        assert(after.audit_log.len() == state.audit_log.len() + 1);
    }
}

proof fn lemma_registered_refused(
    state: StateView,
    req: RegisterRequestView,
    draws: RegisterDrawsView,
)
    requires
        registered(state, req, draws).1 is Err,
    ensures
        registered(state, req, draws).0 == state <==> !leaves_something(
            state,
            Operation::Register { req, draws },
        ),
{
    let after = registered(state, req, draws).0;
    let id = state.tokens.at(req.token).network_id;
    if state.networks.has(id) {
        lemma_insert_same(state.networks, id);
    }
    if leaves_something(state, Operation::Register { req, draws }) {
        assert(after.networks.at(id) != state.networks.at(id));
    }
}

proof fn lemma_url_registered_refused(
    state: StateView,
    req: RegisterUrlRequestView,
    draws: RegisterUrlDrawsView,
)
    requires
        url_registered(state, req, draws).1 is Err,
    ensures
        url_registered(state, req, draws).0 == state <==> !leaves_something(
            state,
            Operation::RegisterUrl { req, draws },
        ),
{
    let after = url_registered(state, req, draws).0;
    let id = req.network_id;
    if state.networks.has(id) {
        lemma_insert_same(state.networks, id);
    }
    if leaves_something(state, Operation::RegisterUrl { req, draws }) {
        assert(after.networks.at(id) != state.networks.at(id));
    }
}

proof fn lemma_node_updated_refused(
    state: StateView,
    node_id: Seq<char>,
    req: UpdateNodeRequestView,
    now: i64,
    stamp: AuditStampView,
)
    requires
        node_updated(state, node_id, req, now, stamp).1 is Err,
    ensures
        node_updated(state, node_id, req, now, stamp).0 == state <==> !leaves_something(
            state,
            Operation::UpdateNode { node_id, req, now, stamp },
        ),
{
    let after = node_updated(state, node_id, req, now, stamp).0;
    if state.nodes.has(node_id) {
        lemma_insert_same(state.nodes, node_id);
    }
    if leaves_something(state, Operation::UpdateNode { node_id, req, now, stamp }) {
        assert(after.nodes.at(node_id) != state.nodes.at(node_id));
    }
}

proof fn lemma_keys_rotated_refused(
    state: StateView,
    node_id: Seq<char>,
    req: KeyRotationRequestView,
    headers: HeadersView,
    admin_token: Option<Seq<char>>,
    now: i64,
    stamp: AuditStampView,
)
    requires
        keys_rotated(state, node_id, req, headers, admin_token, now, stamp).1 is Err,
    ensures
        keys_rotated(state, node_id, req, headers, admin_token, now, stamp).0 == state
            <==> !leaves_something(
            state,
            Operation::RotateKeys { node_id, req, headers, admin_token, now, stamp },
        ),
{
    let after = keys_rotated(state, node_id, req, headers, admin_token, now, stamp).0;
    let op = Operation::RotateKeys { node_id, req, headers, admin_token, now, stamp };
    if state.nodes.has(node_id) {
        lemma_insert_same(state.nodes, node_id);
    }
    if leaves_something(state, op) {
        assert(after.nodes.at(node_id).machine_public_key != state.nodes.at(
            node_id,
        ).machine_public_key);
    }
}

/// An operation that is refused leaves the state as it was, unless it is one of those that leave
/// something behind.
pub proof fn law_refusals_change_nothing(state: StateView, op: Operation)
    requires
        performed(state, op).1 is Some,
    ensures
        performed(state, op).0 == state <==> !leaves_something(state, op),
{
    lemma_counted(state, op);
    match op {
        Operation::CreateNetwork { req, draws } => {
            lemma_network_created_refused(state, req, draws);
        },
        Operation::Register { req, draws } => {
            lemma_registered_refused(state, req, draws);
        },
        Operation::RegisterUrl { req, draws } => {
            lemma_url_registered_refused(state, req, draws);
        },
        Operation::UpdateNode { node_id, req, now, stamp } => {
            lemma_node_updated_refused(state, node_id, req, now, stamp);
        },
        Operation::RotateKeys { node_id, req, headers, admin_token, now, stamp } => {
            lemma_keys_rotated_refused(state, node_id, req, headers, admin_token, now, stamp);
        },
        _ => {
            lemma_others_refused(state, op);
        },
    }
}

proof fn lemma_others_refused(state: StateView, op: Operation)
    requires
        performed(state, op).1 is Some,
        op is DeleteNetwork || op is UpdateAcl || op is UpdateKeyPolicy || op is CreateToken
            || op is RevokeToken || op is Approve || op is RevokeNode || op is DeleteNode
            || op is Heartbeat,
    ensures
        uncounted(state, op) == state,
{
}

/// Whether an operation is about a node.
pub open spec fn about_node(state: StateView, op: Operation, node_id: Seq<char>) -> bool {
    match op {
        Operation::Register { draws, .. } => draws.node_id == node_id,
        Operation::RegisterUrl { draws, .. } => draws.node_id == node_id,
        Operation::Approve { node_id: id, .. } => id == node_id,
        Operation::UpdateNode { node_id: id, .. } => id == node_id,
        Operation::RotateKeys { node_id: id, .. } => id == node_id,
        Operation::RevokeNode { node_id: id, .. } => id == node_id,
        Operation::DeleteNode { node_id: id, .. } => id == node_id,
        Operation::Heartbeat { req, .. } => req.node_id == node_id,
        _ => false,
    }
}

/// An operation leaves every node as it was that it is not about.
pub proof fn law_other_nodes_stay(state: StateView, op: Operation, node_id: Seq<char>)
    requires
        !about_node(state, op, node_id),
    ensures
        performed(state, op).0.nodes.find(node_id) == state.nodes.find(node_id),
{
    lemma_counted(state, op);
    lemma_frame(state, op, node_id);
}

/// Only making, deleting and changing networks, and nodes that join, change a network; the ranges
/// of a network never change.
pub proof fn law_ranges_never_change(state: StateView, op: Operation, network_id: Seq<char>)
    requires
        state.networks.has(network_id),
        performed(state, op).0.networks.has(network_id),
    ensures
        performed(state, op).0.networks.at(network_id).overlay_v4 == state.networks.at(
            network_id,
        ).overlay_v4,
        performed(state, op).0.networks.at(network_id).overlay_v6 == state.networks.at(
            network_id,
        ).overlay_v6,
        performed(state, op).0.networks.at(network_id).dns_domain == state.networks.at(
            network_id,
        ).dns_domain,
{
    lemma_counted(state, op);
    lemma_frame(state, op, network_id);
}

/// Whether no two nodes of a network that are not revoked bear one name, whatever the case of ASCII
/// letters.
pub open spec fn names_distinct(state: StateView) -> bool {
    forall|j: Seq<char>, k: Seq<char>| #[trigger]
        state.nodes.has(j) && #[trigger] state.nodes.has(k) && j != k ==> !same_name(
            state.nodes.at(j),
            state.nodes.at(k),
        )
}

/// Whether two nodes that are not revoked bear one name in one network.
pub open spec fn same_name(a: NodeStateView, b: NodeStateView) -> bool {
    &&& a.network_id == b.network_id
    &&& a.revoked_at is None
    &&& b.revoked_at is None
    &&& same_ignoring_case(a.name, b.name)
}

/// Nodes that bear no name that another bears stay so when one of them is replaced by one that
/// bears none either.
proof fn lemma_names_insert(state: StateView, after: StateView, id: Seq<char>, node: NodeStateView)
    requires
        names_distinct(state),
        after.nodes == state.nodes.insert(id, node),
        forall|k: Seq<char>| #[trigger]
            state.nodes.has(k) && k != id ==> !same_name(node, state.nodes.at(k)),
    ensures
        names_distinct(after),
{
    assert forall|j: Seq<char>, k: Seq<char>| #[trigger]
        after.nodes.has(j) && #[trigger] after.nodes.has(k) && j != k implies !same_name(
        after.nodes.at(j),
        after.nodes.at(k),
    ) by {
        if j != id {
            assert(state.nodes.has(j));
        }
        if k != id {
            assert(state.nodes.has(k));
        }
        if k == id {
            assert(!same_name(node, state.nodes.at(j)));
            lemma_same_name_symmetric(node, state.nodes.at(j));
        }
    }
}

proof fn lemma_same_name_symmetric(a: NodeStateView, b: NodeStateView)
    ensures
        same_name(a, b) == same_name(b, a),
{
    if same_ignoring_case(a.name, b.name) {
        assert forall|i: int| 0 <= i < b.name.len() implies ascii_lower(
            #[trigger] b.name[i],
        ) == ascii_lower(a.name[i]) by {
            assert(ascii_lower(a.name[i]) == ascii_lower(b.name[i]));
        }
    }
    if same_ignoring_case(b.name, a.name) {
        assert forall|i: int| 0 <= i < a.name.len() implies ascii_lower(
            #[trigger] a.name[i],
        ) == ascii_lower(b.name[i]) by {
            assert(ascii_lower(b.name[i]) == ascii_lower(a.name[i]));
        }
    }
}

/// A node that joins under a name that is not taken bears no name that another bears.
proof fn lemma_new_name(state: StateView, node: NodeStateView, exclude: Option<Seq<char>>)
    requires
        consistent(state),
        !name_taken(state, node.network_id, node.name, exclude),
    ensures
        forall|k: Seq<char>| #[trigger]
            state.nodes.has(k) && exclude != Some(k) ==> !same_name(node, state.nodes.at(k)),
{
    assert forall|k: Seq<char>| #[trigger] state.nodes.has(k) && exclude != Some(k) implies !same_name(
        node,
        state.nodes.at(k),
    ) by {
        assert(node_sound(k, state.nodes.at(k), state.networks));
        assert(!bears_name(state.nodes.at(k), node.network_id, node.name, exclude));
        lemma_same_name_symmetric(node, state.nodes.at(k));
    }
}

proof fn lemma_registered_names(
    state: StateView,
    req: RegisterRequestView,
    draws: RegisterDrawsView,
)
    requires
        consistent(state),
        names_distinct(state),
    ensures
        names_distinct(registered(state, req, draws).0),
{
    let after = registered(state, req, draws).0;
    if registered(state, req, draws).1 is Ok {
        let token = state.tokens.at(req.token);
        let network = state.networks.at(token.network_id);
        assert(network_sound(token.network_id, network));
        let node = after.nodes.at(draws.node_id);
        lemma_new_name(state, node, None);
        lemma_names_insert(state, after, draws.node_id, node);
    } else {
        assert(after.nodes == state.nodes);
    }
}

proof fn lemma_url_registered_names(
    state: StateView,
    req: RegisterUrlRequestView,
    draws: RegisterUrlDrawsView,
)
    requires
        consistent(state),
        names_distinct(state),
    ensures
        names_distinct(url_registered(state, req, draws).0),
{
    let after = url_registered(state, req, draws).0;
    if url_registered(state, req, draws).1 is Ok {
        let network = state.networks.at(req.network_id);
        assert(network_sound(req.network_id, network));
        let node = after.nodes.at(draws.node_id);
        lemma_new_name(state, node, None);
        lemma_names_insert(state, after, draws.node_id, node);
    } else {
        assert(after.nodes == state.nodes);
    }
}

proof fn lemma_node_updated_names(
    state: StateView,
    node_id: Seq<char>,
    req: UpdateNodeRequestView,
    now: i64,
    stamp: AuditStampView,
)
    requires
        consistent(state),
        names_distinct(state),
    ensures
        names_distinct(node_updated(state, node_id, req, now, stamp).0),
{
    let after = node_updated(state, node_id, req, now, stamp).0;
    if state.nodes.has(node_id) {
        let existing = state.nodes.at(node_id);
        assert(node_sound(node_id, existing, state.networks));
        let node = after.nodes.at(node_id);
        if node.name != existing.name {
            lemma_new_name(state, node, Some(existing.id));
        }
        lemma_names_kept(state, after, node_id);
    }
}

proof fn lemma_network_operations_keep_nodes(state: StateView, op: Operation)
    requires
        op is CreateNetwork || op is DeleteNetwork || op is UpdateAcl || op is UpdateKeyPolicy
            || op is CreateToken || op is RevokeToken,
    ensures
        uncounted(state, op).nodes == state.nodes,
{
}

proof fn lemma_other_names(state: StateView, op: Operation)
    requires
        names_distinct(state),
        op is Approve || op is RevokeNode || op is Heartbeat || op is DeleteNode,
    ensures
        names_distinct(uncounted(state, op)),
{
    let after = uncounted(state, op);
    match op {
        Operation::DeleteNode { node_id, stamp } => {
            assert forall|j: Seq<char>, k: Seq<char>| #[trigger]
                after.nodes.has(j) && #[trigger] after.nodes.has(k) && j != k implies !same_name(
                after.nodes.at(j),
                after.nodes.at(k),
            ) by {
                assert(state.nodes.has(j) && state.nodes.has(k));
            }
        },
        Operation::Approve { node_id, .. } => {
            if state.nodes.has(node_id) {
                lemma_names_kept(state, after, node_id);
            }
        },
        Operation::RevokeNode { node_id, .. } => {
            if state.nodes.has(node_id) {
                lemma_names_kept(state, after, node_id);
            }
        },
        Operation::Heartbeat { req, .. } => {
            if state.nodes.has(req.node_id) {
                lemma_names_kept(state, after, req.node_id);
            }
        },
        _ => {},
    }
}

/// Whether an operation gives new keys to a node that is revoked, and another node of its network
/// has got its name meanwhile.
pub open spec fn takes_name_back(state: StateView, op: Operation) -> bool {
    match op {
        Operation::RotateKeys { node_id, .. } => {
            let node = state.nodes.at(node_id);
            &&& state.nodes.has(node_id)
            &&& node.revoked_at is Some
            &&& name_taken(state, node.network_id, node.name, Some(node_id))
            &&& performed(state, op).1 is None
        },
        _ => false,
    }
}

proof fn lemma_rotation_names(state: StateView, op: Operation)
    requires
        consistent(state),
        names_distinct(state),
        op is RotateKeys,
    ensures
        names_distinct(uncounted(state, op)) <==> !takes_name_back(state, op),
{
    let after = uncounted(state, op);
    if let Operation::RotateKeys { node_id, .. } = op {
        if state.nodes.has(node_id) {
            let was = state.nodes.at(node_id);
            let node = after.nodes.at(node_id);
            assert(node_sound(node_id, was, state.networks));
            if was.revoked_at is None || performed(state, op).1 is Some {
                lemma_names_kept(state, after, node_id);
            } else if !name_taken(state, was.network_id, was.name, Some(node_id)) {
                lemma_new_name(state, node, Some(node_id));
                lemma_names_insert(state, after, node_id, node);
            } else {
                let k = choose|k: Seq<char>| #[trigger]
                    state.nodes.has(k) && bears_name(
                        state.nodes.at(k),
                        was.network_id,
                        was.name,
                        Some(node_id),
                    );
                assert(node_sound(k, state.nodes.at(k), state.networks));
                assert(k != node_id);
                assert(same_name(state.nodes.at(k), node));
                assert(after.nodes.has(k) && after.nodes.has(node_id));
            }
        }
    }
}

/// Nodes bear distinct names in their networks, and go on doing so, whatever is done, with one
/// exception: new keys for a node that is revoked let it bear its name again, which another node
/// may have got meanwhile.
pub proof fn law_names_stay_distinct(state: StateView, op: Operation)
    requires
        consistent(state),
        names_distinct(state),
    ensures
        names_distinct(performed(state, op).0) <==> !takes_name_back(state, op),
{
    lemma_counted(state, op);
    match op {
        Operation::Register { req, draws } => {
            lemma_registered_names(state, req, draws);
        },
        Operation::RegisterUrl { req, draws } => {
            lemma_url_registered_names(state, req, draws);
        },
        Operation::UpdateNode { node_id, req, now, stamp } => {
            lemma_node_updated_names(state, node_id, req, now, stamp);
        },
        Operation::CreateNetwork { .. }
        | Operation::DeleteNetwork { .. }
        | Operation::UpdateAcl { .. }
        | Operation::UpdateKeyPolicy { .. }
        | Operation::CreateToken { .. }
        | Operation::RevokeToken { .. } => {
            lemma_network_operations_keep_nodes(state, op);
        },
        Operation::RotateKeys { .. } => {
            lemma_rotation_names(state, op);
        },
        _ => {
            lemma_other_names(state, op);
        },
    }
    lemma_names_ignore_revision(uncounted(state, op), performed(state, op).0);
}

proof fn lemma_names_ignore_revision(a: StateView, b: StateView)
    requires
        a.nodes == b.nodes,
    ensures
        names_distinct(a) == names_distinct(b),
{
}

/// Nodes that bear no name that another bears stay so when one of them changes, but not to bear a
/// name that another bears.
proof fn lemma_names_kept(state: StateView, after: StateView, id: Seq<char>)
    requires
        names_distinct(state),
        state.nodes.has(id),
        forall|k: Seq<char>| #[trigger] after.nodes.has(k) <==> state.nodes.has(k),
        forall|k: Seq<char>| #[trigger]
            state.nodes.has(k) && k != id ==> after.nodes.at(k) == state.nodes.at(k),
        after.nodes.at(id).network_id == state.nodes.at(id).network_id,
        state.nodes.at(id).revoked_at is Some ==> after.nodes.at(id).revoked_at is Some,
        after.nodes.at(id).name != state.nodes.at(id).name ==> forall|k: Seq<char>| #[trigger]
            state.nodes.has(k) && k != id ==> !same_name(after.nodes.at(id), state.nodes.at(k)),
    ensures
        names_distinct(after),
{
    let was = state.nodes.at(id);
    let node = after.nodes.at(id);
    assert forall|j: Seq<char>, k: Seq<char>| #[trigger]
        after.nodes.has(j) && #[trigger] after.nodes.has(k) && j != k implies !same_name(
        after.nodes.at(j),
        after.nodes.at(k),
    ) by {
        assert(state.nodes.has(j) && state.nodes.has(k));
        assert(!same_name(state.nodes.at(j), state.nodes.at(k)));
        lemma_same_name_symmetric(after.nodes.at(j), after.nodes.at(k));
    }
}

} // verus!
