//! What happens to nodes after they joined.
use vstd::prelude::*;

use crate::audit::{field, named};
use crate::auth::{
    admin_allowed, node_allowed, require_admin, require_node, Headers, HeadersView,
};
use crate::enroll::{
    ensure_unique_node_name, name_taken, normalize_node_name, normalized_name,
};
use crate::consistency::consistent;
use crate::error::{outcome, ApiError};
use crate::ids::now_unix;
use crate::keys::{
    effective_node_status, fresh_key, in_good_standing, key_for, key_revoked, revoke_key_record,
    rotation_due,
};
use crate::laws::{
    law_heard_from, law_keys_rotated, law_node_deleted, law_node_revoked, law_node_updated,
};
use crate::model::{
    clone_list, AdminNodesResponse, AdminNodesResponseView, AuditDetail, AuditDetailView,
    AuditEntry, AuditEntryView, AuditField, AuditFieldView, AuditValue, AuditValueView,
    DeleteNodeResponse, DeleteNodeResponseView, HeartbeatRequest, HeartbeatRequestView,
    HeartbeatResponse, HeartbeatResponseView, KeyHistoryResponse, KeyHistoryResponseView,
    KeyRecord, KeyRotationRequest, KeyRotationRequestView, KeyRotationResponse,
    KeyRotationResponseView, KeyType, NetworkState, NetworkStateView, NodeInfo, NodeInfoView,
    NodeState, NodeStateView, RelayConfig, RelayConfigView, RevokeNodeResponse,
    RevokeNodeResponseView, UpdateNodeRequest, UpdateNodeRequestView, UpdateNodeResponse,
    UpdateNodeResponseView,
};
use crate::net::{socket_text, socket_text_of, IpAddress, SocketAddress};
use crate::netmap::{build_netmap, is_netmap_of, relay_offered, relay_or_none};
use crate::state::{
    build_audit_entry, written, AuditStamp, AuditStampView, State, StateView,
};
use crate::table::{lemma_filter_push, lemma_filter_subset, Table, TableView};
use crate::text::{dedup_strings, first_occurrences, push_new, same_text, trim, trimmed};

verus! {

/// What is told of a node of a network at `now`.
pub open spec fn node_info_at(node: NodeStateView, network: NetworkStateView, now: i64) -> NodeInfoView {
    NodeInfoView::of(
        node,
        network.dns_domain,
        in_good_standing(node, network.key_policy, now),
        rotation_due(node, network.key_policy, now),
    )
}

/// What is told of the nodes of a network at `now`, in their order.
pub open spec fn node_infos(
    nodes: TableView<NodeStateView>,
    network_id: Seq<char>,
    network: NetworkStateView,
    now: i64,
) -> Seq<NodeInfoView> {
    let found = nodes.values().filter(|node: NodeStateView| node.network_id == network_id);
    Seq::new(found.len(), |i: int| node_info_at(found[i], network, now))
}

/// The nodes of a network at `now`.
pub open spec fn nodes_listed(state: StateView, network_id: Seq<char>, now: i64) -> Result<
    AdminNodesResponseView,
    ApiError,
> {
    match state.networks.find(network_id) {
        None => Err(ApiError::NotFound("network")),
        Some(network) => Ok(
            AdminNodesResponseView { nodes: node_infos(state.nodes, network_id, network, now) },
        ),
    }
}

/// What is told of the nodes of a network at `now`.
fn collect_nodes(
    nodes: &Table<NodeState>,
    network_id: &str,
    network: &NetworkState,
    now: i64,
) -> (r: Vec<NodeInfo>)
    requires
        nodes.wf(),
    ensures
        r.deep_view() == node_infos(nodes.deep_view(), network_id@, network.deep_view(), now),
{
    let ghost all = nodes.deep_view().values();
    let ghost test = |node: NodeStateView| node.network_id == network_id@;
    let ghost told = |found: Seq<NodeStateView>|
        Seq::new(found.len(), |i: int| node_info_at(found[i], network.deep_view(), now));
    let mut out: Vec<NodeInfo> = Vec::new();
    let mut i: usize = 0;
    let total: usize = nodes.len();
    proof {
        assert(all.take(0).filter(test) =~= Seq::<NodeStateView>::empty()) by {
            reveal(Seq::filter);
        }
        assert(out.deep_view() =~= told(all.take(0).filter(test)));
    }
    while i < total
        invariant
            nodes.wf(),
            i <= total,
            total == all.len(),
            total == nodes.deep_view().keys.len(),
            all == nodes.deep_view().values(),
            test == (|node: NodeStateView| node.network_id == network_id@),
            told == (|found: Seq<NodeStateView>|
                Seq::new(found.len(), |i: int| node_info_at(found[i], network.deep_view(), now))),
            out.deep_view() == told(all.take(i as int).filter(test)),
        decreases total - i,
    {
        let node: &NodeState = nodes.value_at(i);
        let ghost before = out.deep_view();
        let ghost chosen = all.take(i as int).filter(test);
        proof {
            assert(all.take(i + 1) =~= all.take(i as int).push(all[i as int]));
            lemma_filter_push(all.take(i as int), test, all[i as int]);
        }
        if same_text(node.network_id.as_str(), network_id) {
            let (approved, key_rotation_required) = effective_node_status(
                node,
                &network.key_policy,
                now,
            );
            let info: NodeInfo = NodeInfo::from_state(
                node,
                network.dns_domain.as_str(),
                approved,
                key_rotation_required,
            );
            out.push(info);
            assert(out.deep_view() =~= before.push(info.deep_view()));
            assert(told(chosen.push(all[i as int])) =~= told(chosen).push(
                node_info_at(all[i as int], network.deep_view(), now),
            ));
        }
        i = i + 1;
    }
    assert(all.take(i as int) =~= all);
    out
}

/// The nodes of a network at `now`.
pub fn admin_nodes_at(state: &State, network_id: &str, now: i64) -> (r: Result<
    AdminNodesResponse,
    ApiError,
>)
    requires
        state.wf(),
    ensures
        outcome(r) == nodes_listed(state.deep_view(), network_id@, now),
{
    match state.networks.get(network_id) {
        None => Err(ApiError::NotFound("network")),
        Some(network) => Ok(
            AdminNodesResponse { nodes: collect_nodes(&state.nodes, network_id, network, now) },
        ),
    }
}

/// Answers an administrator who asks for the nodes of a network.
pub fn admin_nodes(
    state: &State,
    admin_token: &Option<String>,
    headers: &Headers,
    network_id: &str,
) -> (r: Result<AdminNodesResponse, ApiError>)
    requires
        state.wf(),
    ensures
        !admin_allowed(headers.deep_view(), admin_token.deep_view()) ==> r == Err::<
            AdminNodesResponse,
            ApiError,
        >(ApiError::Unauthorized("admin token required")),
        admin_allowed(headers.deep_view(), admin_token.deep_view()) ==> exists|now: i64|
            outcome(r) == #[trigger] nodes_listed(state.deep_view(), network_id@, now),
{
    if let Err(refusal) = require_admin(headers, admin_token) {
        return Err(refusal);
    }
    let now: i64 = now_unix();
    admin_nodes_at(state, network_id, now)
}

/// The tags without the white space around them; those of which nothing is left are dropped.
pub open spec fn trimmed_tags(tags: Seq<Seq<char>>) -> Seq<Seq<char>>
    decreases tags.len(),
{
    if tags.len() == 0 {
        Seq::empty()
    } else {
        let rest = trimmed_tags(tags.drop_last());
        if trimmed(tags.last()).len() == 0 {
            rest
        } else {
            rest.push(trimmed(tags.last()))
        }
    }
}

/// The tags that a node gets when `tags` are asked for: trimmed, and each once.
pub open spec fn clean_tags(tags: Seq<Seq<char>>) -> Seq<Seq<char>> {
    first_occurrences(trimmed_tags(tags))
}

fn normalize_tags(tags: &Vec<String>) -> (r: Vec<String>)
    ensures
        r.deep_view() == clean_tags(tags.deep_view()),
{
    let ghost all = tags.deep_view();
    let mut out: Vec<String> = Vec::new();
    let mut i: usize = 0;
    assert(out.deep_view() =~= clean_tags(all.take(0)));
    while i < tags.len()
        invariant
            i <= tags@.len(),
            all == tags.deep_view(),
            out.deep_view() == clean_tags(all.take(i as int)),
        decreases tags.len() - i,
    {
        let tag: String = trim(tags[i].as_str());
        proof {
            assert(all.take(i + 1).drop_last() =~= all.take(i as int));
            assert(all.take(i + 1).last() == all[i as int]);
        }
        if !tag.as_str().is_empty() {
            push_new(&mut out, tag, Ghost(trimmed_tags(all.take(i as int))));
        }
        i = i + 1;
    }
    assert(all.take(i as int) =~= all);
    out
}

/// Whether two lists hold the same texts in the same order.
fn same_list(a: &Vec<String>, b: &Vec<String>) -> (r: bool)
    ensures
        r == (a.deep_view() == b.deep_view()),
{
    if a.len() != b.len() {
        assert(a.deep_view().len() != b.deep_view().len());
        return false;
    }
    let mut i: usize = 0;
    while i < a.len()
        invariant
            a@.len() == b@.len(),
            i <= a@.len(),
            forall|k: int| 0 <= k < i ==> #[trigger] a.deep_view()[k] == b.deep_view()[k],
        decreases a.len() - i,
    {
        if a[i] != b[i] {
            assert(a.deep_view()[i as int] != b.deep_view()[i as int]);
            return false;
        }
        i = i + 1;
    }
    assert(a.deep_view() =~= b.deep_view());
    true
}

/// The new name of a node, if it is to have one that it does not have yet.
pub open spec fn next_name(state: StateView, existing: NodeStateView, name: Option<Seq<char>>) -> Result<
    Option<Seq<char>>,
    ApiError,
> {
    match name {
        None => Ok(None),
        Some(name) => match normalized_name(name) {
            Err(refusal) => Err(refusal),
            Ok(normalized) => if normalized == existing.name {
                Ok(None)
            } else if name_taken(state, existing.network_id, normalized, Some(existing.id)) {
                Err(ApiError::Conflict("node name already exists"))
            } else {
                Ok(Some(normalized))
            },
        },
    }
}

/// The new tags of a node, if it is to have some that it does not have yet.
pub open spec fn next_tags(existing: NodeStateView, tags: Option<Seq<Seq<char>>>) -> Option<
    Seq<Seq<char>>,
> {
    match tags {
        None => None,
        Some(tags) => if clean_tags(tags) == existing.tags {
            None
        } else {
            Some(clean_tags(tags))
        },
    }
}

/// A node with a new name and new tags, where there are some.
pub open spec fn renamed(
    node: NodeStateView,
    name: Option<Seq<char>>,
    tags: Option<Seq<Seq<char>>>,
) -> NodeStateView {
    NodeStateView {
        name: match name {
            Some(name) => name,
            None => node.name,
        },
        tags: match tags {
            Some(tags) => tags,
            None => node.tags,
        },
        ..node
    }
}

/// What the log says of a change of name and tags: what changed.
pub open spec fn update_fields(name: Option<Seq<char>>, tags: Option<Seq<Seq<char>>>) -> Seq<
    AuditFieldView,
> {
    (match name {
        Some(name) => seq![named("name"@, AuditValueView::Text(name))],
        None => Seq::empty(),
    }) + (match tags {
        Some(tags) => seq![named("tags"@, AuditValueView::TextList(tags))],
        None => Seq::empty(),
    })
}

/// What becomes of the state when a node is to have another name or other tags. The change stays
/// even where the network of the node is not found.
pub open spec fn node_updated(
    state: StateView,
    node_id: Seq<char>,
    req: UpdateNodeRequestView,
    now: i64,
    stamp: AuditStampView,
) -> (StateView, Result<UpdateNodeResponseView, ApiError>) {
    if req.name is None && req.tags is None {
        (state, Err(ApiError::BadRequest("no fields to update")))
    } else {
        match state.nodes.find(node_id) {
            None => (state, Err(ApiError::NotFound("node"))),
            Some(existing) => match next_name(state, existing, req.name) {
                Err(refusal) => (state, Err(refusal)),
                Ok(name) => {
                    let tags = next_tags(existing, req.tags);
                    let node = renamed(existing, name, tags);
                    let changed = StateView { nodes: state.nodes.insert(node_id, node), ..state };
                    match state.networks.find(node.network_id) {
                        None => (changed, Err(ApiError::NotFound("network"))),
                        Some(network) => (
                            if name is None && tags is None {
                                changed
                            } else {
                                changed.logged(
                                    AuditEntryView::of(
                                        stamp,
                                        "node.update"@,
                                        Some(network.id),
                                        Some(node.id),
                                        Some(AuditDetailView::Fields(update_fields(name, tags))),
                                    ),
                                )
                            },
                            Ok(UpdateNodeResponseView { node: node_info_at(node, network, now) }),
                        ),
                    }
                },
            },
        }
    }
}

/// Gives a node another name or other tags, given what is drawn for the log.
#[verifier::rlimit(60)]
pub fn update_node_at(
    state: &mut State,
    node_id: &str,
    req: &UpdateNodeRequest,
    now: i64,
    stamp: AuditStamp,
) -> (r: Result<UpdateNodeResponse, ApiError>)
    requires
        old(state).wf(),
    ensures
        final(state).wf(),
        (final(state).deep_view(), outcome(r)) == node_updated(
            old(state).deep_view(),
            node_id@,
            req.deep_view(),
            now,
            stamp.deep_view(),
        ),
{
    if req.name.is_none() && req.tags.is_none() {
        return Err(ApiError::BadRequest("no fields to update"));
    }
    let existing: NodeState = match state.nodes.get(node_id) {
        Some(node) => node.clone(),
        None => {
            return Err(ApiError::NotFound("node"));
        },
    };
    let ghost was = existing.deep_view();
    let mut name: Option<String> = None;
    if let Some(wanted) = &req.name {
        match normalize_node_name(wanted.as_str()) {
            Err(refusal) => {
                return Err(refusal);
            },
            Ok(normalized) => if normalized != existing.name {
                if let Err(refusal) = ensure_unique_node_name(
                    state,
                    existing.network_id.as_str(),
                    normalized.as_str(),
                    Some(existing.id.as_str()),
                ) {
                    return Err(refusal);
                }
                name = Some(normalized);
            },
        }
    }
    assert(next_name(old(state).deep_view(), was, req.deep_view().name) == Ok::<
        Option<Seq<char>>,
        ApiError,
    >(name.deep_view()));
    let mut tags: Option<Vec<String>> = None;
    if let Some(wanted) = &req.tags {
        let unique: Vec<String> = normalize_tags(wanted);
        if !same_list(&unique, &existing.tags) {
            tags = Some(unique);
        }
    }
    assert(next_tags(was, req.deep_view().tags) == tags.deep_view());
    let fields: Vec<AuditField> = change_fields(&name, &tags);
    let changed: bool = name.is_some() || tags.is_some();
    let ghost next = renamed(was, name.deep_view(), tags.deep_view());
    let node = NodeState {
        name: match name {
            Some(name) => name,
            None => existing.name.clone(),
        },
        tags: match tags {
            Some(tags) => tags,
            None => clone_list(&existing.tags),
        },
        ..existing
    };
    assert(node.deep_view() == next);
    let told: Result<(NodeInfo, String), ApiError> = match state.networks.get(
        node.network_id.as_str(),
    ) {
        None => Err(ApiError::NotFound("network")),
        Some(network) => {
            let (approved, key_rotation_required) = effective_node_status(
                &node,
                &network.key_policy,
                now,
            );
            Ok(
                (
                    NodeInfo::from_state(
                        &node,
                        network.dns_domain.as_str(),
                        approved,
                        key_rotation_required,
                    ),
                    network.id.clone(),
                ),
            )
        },
    };
    let id: String = node.id.clone();
    state.nodes.insert(node_id.to_owned(), node);
    match told {
        Err(refusal) => Err(refusal),
        Ok((info, network_id)) => {
            if changed {
                state.log(
                    build_audit_entry(
                        stamp,
                        "node.update",
                        Some(network_id),
                        Some(id),
                        Some(AuditDetail::Fields(fields)),
                    ),
                );
            }
            Ok(UpdateNodeResponse { node: info })
        },
    }
}

/// What the log says of a change of name and tags: what changed.
fn change_fields(name: &Option<String>, tags: &Option<Vec<String>>) -> (r: Vec<AuditField>)
    ensures
        r.deep_view() == update_fields(name.deep_view(), tags.deep_view()),
{
    let mut fields: Vec<AuditField> = Vec::new();
    if let Some(name) = name {
        fields.push(field("name", AuditValue::Text(name.clone())));
    }
    if let Some(tags) = tags {
        fields.push(field("tags", AuditValue::TextList(clone_list(tags))));
    }
    assert(fields.deep_view() =~= update_fields(name.deep_view(), tags.deep_view()));
    fields
}

/// Answers an administrator who gives a node another name or other tags.
pub fn update_node(
    state: &mut State,
    admin_token: &Option<String>,
    headers: &Headers,
    node_id: &str,
    req: &UpdateNodeRequest,
) -> (r: Result<UpdateNodeResponse, ApiError>)
    requires
        old(state).wf(),
    ensures
        final(state).wf(),
        consistent(old(state).deep_view()) ==> consistent(final(state).deep_view()),
        !admin_allowed(headers.deep_view(), admin_token.deep_view()) ==> {
            &&& final(state).deep_view() == old(state).deep_view()
            &&& r == Err::<UpdateNodeResponse, ApiError>(
                ApiError::Unauthorized("admin token required"),
            )
        },
        admin_allowed(headers.deep_view(), admin_token.deep_view()) ==> exists|
            now: i64,
            stamp: AuditStampView,
        |
            stamp.wf() && (final(state).deep_view(), outcome(r)) == written(
                #[trigger] node_updated(
                    old(state).deep_view(),
                    node_id@,
                    req.deep_view(),
                    now,
                    stamp,
                ),
            ),
{
    if let Err(refusal) = require_admin(headers, admin_token) {
        return Err(refusal);
    }
    let now: i64 = now_unix();
    let stamp: AuditStamp = AuditStamp::draw();
    let ghost drawn = stamp.deep_view();
    let result = update_node_at(state, node_id, req, now, stamp);
    proof {
        if consistent(old(state).deep_view()) {
            law_node_updated(old(state).deep_view(), node_id@, req.deep_view(), now, drawn);
        }
    }
    match result {
        Ok(answer) => {
            state.bump();
            Ok(answer)
        },
        Err(refusal) => Err(refusal),
    }
}

/// A node after one of its keys was replaced: the records of the old key say that it is revoked,
/// and the new key has a record of its own.
pub open spec fn key_replaced(
    node: NodeStateView,
    key_type: KeyType,
    new_key: Seq<char>,
    now: i64,
) -> NodeStateView {
    let history = key_revoked(node.key_history, key_type, key_for(node, key_type), now).push(
        fresh_key(key_type, new_key, now),
    );
    match key_type {
        KeyType::Machine => NodeStateView {
            machine_public_key: new_key,
            key_history: history,
            ..node
        },
        KeyType::WireGuard => NodeStateView { wg_public_key: new_key, key_history: history, ..node },
    }
}

/// Replaces one of the keys of a node.
fn replace_key(node: &mut NodeState, key_type: KeyType, new_key: &String, now: i64)
    ensures
        final(node).deep_view() == key_replaced(
            old(node).deep_view(),
            key_type,
            new_key@,
            now,
        ),
{
    let old_key: String = match key_type {
        KeyType::Machine => node.machine_public_key.clone(),
        KeyType::WireGuard => node.wg_public_key.clone(),
    };
    revoke_key_record(&mut node.key_history, key_type, &old_key, now);
    let ghost revoked = node.key_history.deep_view();
    match key_type {
        KeyType::Machine => {
            node.machine_public_key = new_key.clone();
        },
        KeyType::WireGuard => {
            node.wg_public_key = new_key.clone();
        },
    }
    let record = KeyRecord {
        key_type,
        public_key: new_key.clone(),
        created_at: now,
        revoked_at: None,
    };
    node.key_history.push(record);
    assert(node.key_history.deep_view() =~= revoked.push(fresh_key(key_type, new_key@, now)));
}

/// What the log says of a change of keys: the keys that are new.
pub open spec fn rotation_fields(req: KeyRotationRequestView) -> Seq<AuditFieldView> {
    (match req.machine_public_key {
        Some(key) => seq![named("machine"@, AuditValueView::Text(key))],
        None => Seq::empty(),
    }) + (match req.wg_public_key {
        Some(key) => seq![named("wireguard"@, AuditValueView::Text(key))],
        None => Seq::empty(),
    })
}

fn rotated_fields(req: &KeyRotationRequest) -> (r: Vec<AuditField>)
    ensures
        r.deep_view() == rotation_fields(req.deep_view()),
{
    let mut fields: Vec<AuditField> = Vec::new();
    if let Some(key) = &req.machine_public_key {
        fields.push(field("machine", AuditValue::Text(key.clone())));
    }
    if let Some(key) = &req.wg_public_key {
        fields.push(field("wireguard", AuditValue::Text(key.clone())));
    }
    assert(fields.deep_view() =~= rotation_fields(req.deep_view()));
    fields
}

/// What becomes of the state when a node is to have new keys. A new machine key stays even where
/// the WireGuard key beside it is refused. A node that gets new keys is no longer revoked.
pub open spec fn keys_rotated(
    state: StateView,
    node_id: Seq<char>,
    req: KeyRotationRequestView,
    headers: HeadersView,
    admin_token: Option<Seq<char>>,
    now: i64,
    stamp: AuditStampView,
) -> (StateView, Result<KeyRotationResponseView, ApiError>) {
    if req.machine_public_key is None && req.wg_public_key is None {
        (state, Err(ApiError::BadRequest("no keys provided")))
    } else {
        match state.nodes.find(node_id) {
            None => (state, Err(ApiError::NotFound("node"))),
            Some(node) => if !node_allowed(headers, admin_token, node) {
                (state, Err(ApiError::Unauthorized("node token required")))
            } else if req.machine_public_key == Some(node.machine_public_key) {
                (state, Err(ApiError::BadRequest("machine_public_key unchanged")))
            } else {
                let first = match req.machine_public_key {
                    Some(key) => key_replaced(node, KeyType::Machine, key, now),
                    None => node,
                };
                if req.wg_public_key == Some(node.wg_public_key) {
                    (
                        StateView { nodes: state.nodes.insert(node_id, first), ..state },
                        Err(ApiError::BadRequest("wg_public_key unchanged")),
                    )
                } else {
                    let second = match req.wg_public_key {
                        Some(key) => key_replaced(first, KeyType::WireGuard, key, now),
                        None => first,
                    };
                    let after = NodeStateView { revoked_at: None, ..second };
                    (
                        StateView { nodes: state.nodes.insert(node_id, after), ..state }.logged(
                            AuditEntryView::of(
                                stamp,
                                "keys.rotate"@,
                                Some(after.network_id),
                                Some(after.id),
                                Some(AuditDetailView::Fields(rotation_fields(req))),
                            ),
                        ),
                        Ok(
                            KeyRotationResponseView {
                                node_id: after.id,
                                machine_public_key: after.machine_public_key,
                                wg_public_key: after.wg_public_key,
                            },
                        ),
                    )
                }
            },
        }
    }
}

/// Gives a node new keys, given what is drawn for the log.
#[verifier::rlimit(60)]
pub fn rotate_keys_at(
    state: &mut State,
    admin_token: &Option<String>,
    headers: &Headers,
    node_id: &str,
    req: &KeyRotationRequest,
    now: i64,
    stamp: AuditStamp,
) -> (r: Result<KeyRotationResponse, ApiError>)
    requires
        old(state).wf(),
    ensures
        final(state).wf(),
        (final(state).deep_view(), outcome(r)) == keys_rotated(
            old(state).deep_view(),
            node_id@,
            req.deep_view(),
            headers.deep_view(),
            admin_token.deep_view(),
            now,
            stamp.deep_view(),
        ),
{
    if req.machine_public_key.is_none() && req.wg_public_key.is_none() {
        return Err(ApiError::BadRequest("no keys provided"));
    }
    let mut node: NodeState = match state.nodes.get(node_id) {
        Some(node) => node.clone(),
        None => {
            return Err(ApiError::NotFound("node"));
        },
    };
    let ghost was = node.deep_view();
    if let Err(refusal) = require_node(headers, admin_token, &node) {
        return Err(refusal);
    }
    if let Some(key) = &req.machine_public_key {
        if node.machine_public_key == *key {
            return Err(ApiError::BadRequest("machine_public_key unchanged"));
        }
        replace_key(&mut node, KeyType::Machine, key, now);
    }
    let ghost first = node.deep_view();
    assert(first == (match req.deep_view().machine_public_key {
        Some(key) => key_replaced(was, KeyType::Machine, key, now),
        None => was,
    }));
    if let Some(key) = &req.wg_public_key {
        if node.wg_public_key == *key {
            state.nodes.insert(node_id.to_owned(), node);
            return Err(ApiError::BadRequest("wg_public_key unchanged"));
        }
        replace_key(&mut node, KeyType::WireGuard, key, now);
    }
    node.revoked_at = None;
    let entry: AuditEntry = build_audit_entry(
        stamp,
        "keys.rotate",
        Some(node.network_id.clone()),
        Some(node.id.clone()),
        Some(AuditDetail::Fields(rotated_fields(req))),
    );
    let answer = KeyRotationResponse {
        node_id: node.id.clone(),
        machine_public_key: node.machine_public_key.clone(),
        wg_public_key: node.wg_public_key.clone(),
    };
    state.nodes.insert(node_id.to_owned(), node);
    state.log(entry);
    Ok(answer)
}

/// Answers a node that changes its keys.
pub fn rotate_keys(
    state: &mut State,
    admin_token: &Option<String>,
    headers: &Headers,
    node_id: &str,
    req: &KeyRotationRequest,
) -> (r: Result<KeyRotationResponse, ApiError>)
    requires
        old(state).wf(),
    ensures
        final(state).wf(),
        consistent(old(state).deep_view()) ==> consistent(final(state).deep_view()),
        exists|now: i64, stamp: AuditStampView|
            stamp.wf() && (final(state).deep_view(), outcome(r)) == written(
                #[trigger] keys_rotated(
                    old(state).deep_view(),
                    node_id@,
                    req.deep_view(),
                    headers.deep_view(),
                    admin_token.deep_view(),
                    now,
                    stamp,
                ),
            ),
{
    let now: i64 = now_unix();
    let stamp: AuditStamp = AuditStamp::draw();
    let ghost drawn = stamp.deep_view();
    let result = rotate_keys_at(state, admin_token, headers, node_id, req, now, stamp);
    proof {
        if consistent(old(state).deep_view()) {
            law_keys_rotated(
                old(state).deep_view(),
                node_id@,
                req.deep_view(),
                headers.deep_view(),
                admin_token.deep_view(),
                now,
                drawn,
            );
        }
    }
    match result {
        Ok(answer) => {
            state.bump();
            Ok(answer)
        },
        Err(refusal) => Err(refusal),
    }
}

/// A node after it was revoked, with both of its keys.
pub open spec fn revoked_node(node: NodeStateView, now: i64) -> NodeStateView {
    NodeStateView {
        revoked_at: Some(now),
        key_history: key_revoked(
            key_revoked(node.key_history, KeyType::Machine, node.machine_public_key, now),
            KeyType::WireGuard,
            node.wg_public_key,
            now,
        ),
        ..node
    }
}

/// What becomes of the state when a node is to be revoked.
pub open spec fn node_revoked(
    state: StateView,
    node_id: Seq<char>,
    now: i64,
    stamp: AuditStampView,
) -> (StateView, Result<RevokeNodeResponseView, ApiError>) {
    match state.nodes.find(node_id) {
        None => (state, Err(ApiError::NotFound("node"))),
        Some(node) => (
            StateView {
                nodes: state.nodes.insert(node_id, revoked_node(node, now)),
                ..state
            }.logged(
                AuditEntryView::of(
                    stamp,
                    "keys.revoke"@,
                    Some(node.network_id),
                    Some(node.id),
                    Some(
                        AuditDetailView::Fields(
                            seq![named("revoked_at"@, AuditValueView::Int(now))],
                        ),
                    ),
                ),
            ),
            Ok(RevokeNodeResponseView { node_id: node.id, revoked_at: Some(now) }),
        ),
    }
}

/// Revokes a node, given what is drawn for the log.
pub fn revoke_node_at(state: &mut State, node_id: &str, now: i64, stamp: AuditStamp) -> (r: Result<
    RevokeNodeResponse,
    ApiError,
>)
    requires
        old(state).wf(),
    ensures
        final(state).wf(),
        (final(state).deep_view(), outcome(r)) == node_revoked(
            old(state).deep_view(),
            node_id@,
            now,
            stamp.deep_view(),
        ),
{
    let mut node: NodeState = match state.nodes.get(node_id) {
        Some(node) => node.clone(),
        None => {
            return Err(ApiError::NotFound("node"));
        },
    };
    node.revoked_at = Some(now);
    let machine: String = node.machine_public_key.clone();
    let wg: String = node.wg_public_key.clone();
    revoke_key_record(&mut node.key_history, KeyType::Machine, &machine, now);
    revoke_key_record(&mut node.key_history, KeyType::WireGuard, &wg, now);
    let fields: Vec<AuditField> = vec![field("revoked_at", AuditValue::Int(now))];
    assert(fields.deep_view() =~= seq![named("revoked_at"@, AuditValueView::Int(now))]);
    let entry: AuditEntry = build_audit_entry(
        stamp,
        "keys.revoke",
        Some(node.network_id.clone()),
        Some(node.id.clone()),
        Some(AuditDetail::Fields(fields)),
    );
    let answer = RevokeNodeResponse { node_id: node.id.clone(), revoked_at: Some(now) };
    state.nodes.insert(node_id.to_owned(), node);
    state.log(entry);
    Ok(answer)
}

/// Answers an administrator who revokes a node.
pub fn revoke_node(
    state: &mut State,
    admin_token: &Option<String>,
    headers: &Headers,
    node_id: &str,
) -> (r: Result<RevokeNodeResponse, ApiError>)
    requires
        old(state).wf(),
    ensures
        final(state).wf(),
        consistent(old(state).deep_view()) ==> consistent(final(state).deep_view()),
        !admin_allowed(headers.deep_view(), admin_token.deep_view()) ==> {
            &&& final(state).deep_view() == old(state).deep_view()
            &&& r == Err::<RevokeNodeResponse, ApiError>(
                ApiError::Unauthorized("admin token required"),
            )
        },
        admin_allowed(headers.deep_view(), admin_token.deep_view()) ==> exists|
            now: i64,
            stamp: AuditStampView,
        |
            stamp.wf() && (final(state).deep_view(), outcome(r)) == written(
                #[trigger] node_revoked(old(state).deep_view(), node_id@, now, stamp),
            ),
{
    if let Err(refusal) = require_admin(headers, admin_token) {
        return Err(refusal);
    }
    let now: i64 = now_unix();
    let stamp: AuditStamp = AuditStamp::draw();
    let ghost drawn = stamp.deep_view();
    let result = revoke_node_at(state, node_id, now, stamp);
    proof {
        if consistent(old(state).deep_view()) {
            law_node_revoked(old(state).deep_view(), node_id@, now, drawn);
        }
    }
    match result {
        Ok(answer) => {
            state.bump();
            Ok(answer)
        },
        Err(refusal) => Err(refusal),
    }
}

/// What the log says of a node that was deleted.
pub open spec fn delete_entry(node: NodeStateView, stamp: AuditStampView) -> AuditEntryView {
    AuditEntryView::of(
        stamp,
        "node.delete"@,
        Some(node.network_id),
        Some(node.id),
        Some(
            AuditDetailView::Fields(
                seq![
                    named("name"@, AuditValueView::Text(node.name)),
                    named("ipv4"@, AuditValueView::Text(node.ipv4)),
                    named("ipv6"@, AuditValueView::Text(node.ipv6)),
                ],
            ),
        ),
    )
}

/// What becomes of the state when a node is to be deleted.
pub open spec fn node_deleted(state: StateView, node_id: Seq<char>, stamp: AuditStampView) -> (
    StateView,
    Result<DeleteNodeResponseView, ApiError>,
) {
    match state.nodes.find(node_id) {
        None => (state, Err(ApiError::NotFound("node"))),
        Some(node) => (
            StateView { nodes: state.nodes.remove(node_id), ..state }.logged(
                delete_entry(node, stamp),
            ),
            Ok(DeleteNodeResponseView { node_id: node.id }),
        ),
    }
}

/// Deletes a node, given what is drawn for the log.
pub fn delete_node_at(state: &mut State, node_id: &str, stamp: AuditStamp) -> (r: Result<
    DeleteNodeResponse,
    ApiError,
>)
    requires
        old(state).wf(),
    ensures
        final(state).wf(),
        (final(state).deep_view(), outcome(r)) == node_deleted(
            old(state).deep_view(),
            node_id@,
            stamp.deep_view(),
        ),
{
    let ghost before = state.nodes.deep_view();
    let node: NodeState = match state.nodes.remove(node_id) {
        Some(node) => node,
        None => {
            assert(before.map.remove(node_id@) =~= before.map);
            return Err(ApiError::NotFound("node"));
        },
    };
    let fields: Vec<AuditField> = vec![
        field("name", AuditValue::Text(node.name)),
        field("ipv4", AuditValue::Text(node.ipv4)),
        field("ipv6", AuditValue::Text(node.ipv6)),
    ];
    let ghost view = before.at(node_id@);
    assert(fields.deep_view() =~= seq![
        named("name"@, AuditValueView::Text(view.name)),
        named("ipv4"@, AuditValueView::Text(view.ipv4)),
        named("ipv6"@, AuditValueView::Text(view.ipv6)),
    ]);
    state.log(
        build_audit_entry(
            stamp,
            "node.delete",
            Some(node.network_id),
            Some(node.id.clone()),
            Some(AuditDetail::Fields(fields)),
        ),
    );
    Ok(DeleteNodeResponse { node_id: node.id })
}

/// Answers an administrator who deletes a node.
pub fn delete_node(
    state: &mut State,
    admin_token: &Option<String>,
    headers: &Headers,
    node_id: &str,
) -> (r: Result<DeleteNodeResponse, ApiError>)
    requires
        old(state).wf(),
    ensures
        final(state).wf(),
        consistent(old(state).deep_view()) ==> consistent(final(state).deep_view()),
        !admin_allowed(headers.deep_view(), admin_token.deep_view()) ==> {
            &&& final(state).deep_view() == old(state).deep_view()
            &&& r == Err::<DeleteNodeResponse, ApiError>(
                ApiError::Unauthorized("admin token required"),
            )
        },
        admin_allowed(headers.deep_view(), admin_token.deep_view()) ==> exists|
            stamp: AuditStampView,
        |
            stamp.wf() && (final(state).deep_view(), outcome(r)) == written(
                #[trigger] node_deleted(old(state).deep_view(), node_id@, stamp),
            ),
{
    if let Err(refusal) = require_admin(headers, admin_token) {
        return Err(refusal);
    }
    let stamp: AuditStamp = AuditStamp::draw();
    let ghost drawn = stamp.deep_view();
    let result = delete_node_at(state, node_id, stamp);
    proof {
        if consistent(old(state).deep_view()) {
            law_node_deleted(old(state).deep_view(), node_id@, drawn);
        }
    }
    match result {
        Ok(answer) => {
            state.bump();
            Ok(answer)
        },
        Err(refusal) => Err(refusal),
    }
}

/// What a node is told of the keys that it has or had.
pub open spec fn keys_told(
    state: StateView,
    node_id: Seq<char>,
    headers: HeadersView,
    admin_token: Option<Seq<char>>,
) -> Result<KeyHistoryResponseView, ApiError> {
    match state.nodes.find(node_id) {
        None => Err(ApiError::NotFound("node")),
        Some(node) => if !node_allowed(headers, admin_token, node) {
            Err(ApiError::Unauthorized("node token required"))
        } else {
            Ok(KeyHistoryResponseView { node_id, keys: node.key_history })
        },
    }
}

/// Answers a node that asks for the keys that it has or had.
pub fn node_keys(
    state: &State,
    admin_token: &Option<String>,
    headers: &Headers,
    node_id: &str,
) -> (r: Result<KeyHistoryResponse, ApiError>)
    requires
        state.wf(),
    ensures
        outcome(r) == keys_told(
            state.deep_view(),
            node_id@,
            headers.deep_view(),
            admin_token.deep_view(),
        ),
{
    match state.nodes.get(node_id) {
        None => Err(ApiError::NotFound("node")),
        Some(node) => {
            if let Err(refusal) = require_node(headers, admin_token, node) {
                return Err(refusal);
            }
            Ok(
                KeyHistoryResponse {
                    node_id: node_id.to_owned(),
                    keys: clone_list(&node.key_history),
                },
            )
        },
    }
}

/// The endpoints of a node: the one under which it was seen first, then those that it reports,
/// each once.
pub open spec fn merged_endpoints(provided: Seq<Seq<char>>, observed: Option<Seq<char>>) -> Seq<
    Seq<char>,
> {
    first_occurrences(
        (match observed {
            Some(endpoint) => seq![endpoint],
            None => Seq::empty(),
        }) + provided,
    )
}

/// The endpoints of a node: the one under which it was seen first, then those that it reports.
pub fn merge_endpoints(provided: &Vec<String>, observed: Option<String>) -> (r: Vec<String>)
    ensures
        r.deep_view() == merged_endpoints(provided.deep_view(), observed.deep_view()),
{
    let mut all: Vec<String> = Vec::new();
    if let Some(endpoint) = observed {
        all.push(endpoint);
    }
    let ghost head = all.deep_view();
    let ghost tail = provided.deep_view();
    let mut i: usize = 0;
    assert(head + tail.take(0) =~= head);
    while i < provided.len()
        invariant
            i <= provided@.len(),
            tail == provided.deep_view(),
            all.deep_view() == head + tail.take(i as int),
        decreases provided.len() - i,
    {
        let ghost before = all.deep_view();
        let endpoint: String = provided[i].clone();
        all.push(endpoint);
        assert(all.deep_view() =~= before.push(tail[i as int]));
        assert(head + tail.take(i + 1) =~= before.push(tail[i as int]));
        i = i + 1;
    }
    proof {
        assert(tail.take(i as int) =~= tail);
        assert(head =~= (match observed.deep_view() {
            Some(endpoint) => seq![endpoint],
            None => Seq::empty(),
        }));
    }
    dedup_strings(&all)
}

/// The endpoint under which a node was seen, where it says on which port it listens.
pub open spec fn observed_endpoint(remote: IpAddress, listen_port: Option<u16>) -> Option<Seq<char>> {
    match listen_port {
        Some(port) => Some(socket_text_of(SocketAddress { ip: remote, port, scope: 0 })),
        None => None,
    }
}

/// A node after it reported.
pub open spec fn reported(
    node: NodeStateView,
    req: HeartbeatRequestView,
    remote: IpAddress,
    now: i64,
) -> NodeStateView {
    NodeStateView {
        endpoints: merged_endpoints(req.endpoints, observed_endpoint(remote, req.listen_port)),
        routes: req.routes,
        last_seen: now,
        probe_requested_at: if req.probe == Some(true) {
            Some(now)
        } else {
            node.probe_requested_at
        },
        ..node
    }
}

/// What becomes of the state when a node reports.
pub open spec fn heard_from(
    state: StateView,
    req: HeartbeatRequestView,
    headers: HeadersView,
    admin_token: Option<Seq<char>>,
    remote: IpAddress,
    now: i64,
) -> (StateView, Result<(), ApiError>) {
    match state.nodes.find(req.node_id) {
        None => (state, Err(ApiError::NotFound("node"))),
        Some(node) => if !node_allowed(headers, admin_token, node) {
            (state, Err(ApiError::Unauthorized("node token required")))
        } else {
            (
                StateView {
                    nodes: state.nodes.insert(req.node_id, reported(node, req, remote, now)),
                    ..state
                },
                Ok(()),
            )
        },
    }
}

/// Takes down what a node reports.
pub fn heartbeat_at(
    state: &mut State,
    admin_token: &Option<String>,
    headers: &Headers,
    remote: &IpAddress,
    req: &HeartbeatRequest,
    now: i64,
) -> (r: Result<(), ApiError>)
    requires
        old(state).wf(),
    ensures
        final(state).wf(),
        (final(state).deep_view(), r) == heard_from(
            old(state).deep_view(),
            req.deep_view(),
            headers.deep_view(),
            admin_token.deep_view(),
            *remote,
            now,
        ),
{
    let observed: Option<String> = match req.listen_port {
        Some(port) => Some(socket_text(&SocketAddress { ip: *remote, port, scope: 0 })),
        None => None,
    };
    let endpoints: Vec<String> = merge_endpoints(&req.endpoints, observed);
    let node: NodeState = match state.nodes.get(req.node_id.as_str()) {
        Some(node) => {
            if let Err(refusal) = require_node(headers, admin_token, node) {
                return Err(refusal);
            }
            node.clone()
        },
        None => {
            return Err(ApiError::NotFound("node"));
        },
    };
    let probe: bool = match req.probe {
        Some(probe) => probe,
        None => false,
    };
    let node = NodeState {
        endpoints,
        routes: clone_list(&req.routes),
        last_seen: now,
        probe_requested_at: if probe {
            Some(now)
        } else {
            node.probe_requested_at
        },
        ..node
    };
    state.nodes.insert(req.node_id.clone(), node);
    Ok(())
}

/// Whether a node that reported was answered right: the refusal, or what it learns of its network
/// afterwards.
pub open spec fn is_heartbeat_answer(
    r: Result<HeartbeatResponseView, ApiError>,
    heard: (StateView, Result<(), ApiError>),
    node_id: Seq<char>,
    relay: RelayConfigView,
) -> bool {
    match heard.1 {
        Err(refusal) => r == Err::<HeartbeatResponseView, ApiError>(refusal),
        Ok(_) => match r {
            Ok(answer) => is_netmap_of(
                Ok(answer.netmap),
                heard.0,
                node_id,
                relay_offered(relay),
            ),
            Err(error) => is_netmap_of(Err(error), heard.0, node_id, relay_offered(relay)),
        },
    }
}

/// Answers a node that reports.
pub fn heartbeat(
    state: &mut State,
    relay: &RelayConfig,
    admin_token: &Option<String>,
    headers: &Headers,
    remote: &IpAddress,
    req: &HeartbeatRequest,
) -> (r: Result<HeartbeatResponse, ApiError>)
    requires
        old(state).wf(),
    ensures
        final(state).wf(),
        consistent(old(state).deep_view()) ==> consistent(final(state).deep_view()),
        exists|now: i64|
            {
                let heard = written(
                    #[trigger] heard_from(
                        old(state).deep_view(),
                        req.deep_view(),
                        headers.deep_view(),
                        admin_token.deep_view(),
                        *remote,
                        now,
                    ),
                );
                &&& final(state).deep_view() == heard.0
                &&& is_heartbeat_answer(
                    outcome(r),
                    heard,
                    req.deep_view().node_id,
                    relay.deep_view(),
                )
            },
{
    let now: i64 = now_unix();
    let result = heartbeat_at(state, admin_token, headers, remote, req, now);
    proof {
        if consistent(old(state).deep_view()) {
            law_heard_from(
                old(state).deep_view(),
                req.deep_view(),
                headers.deep_view(),
                admin_token.deep_view(),
                *remote,
                now,
            );
        }
    }
    match result {
        Ok(()) => {
            state.bump();
            match build_netmap(state, req.node_id.as_str(), relay_or_none(relay)) {
                Ok(netmap) => Ok(HeartbeatResponse { netmap }),
                Err(error) => Err(error),
            }
        },
        Err(refusal) => Err(refusal),
    }
}

/// Administrators are shown every node of a network, as it is kept, and no other.
pub proof fn law_nodes_listed(
    state: StateView,
    network_id: Seq<char>,
    now: i64,
    shown: NodeInfoView,
)
    requires
        state.wf(),
        state.networks.has(network_id),
    ensures
        ({
            let network = state.networks.at(network_id);
            &&& nodes_listed(state, network_id, now) is Ok
            &&& nodes_listed(state, network_id, now)->Ok_0.nodes.contains(shown) <==> exists|
                k: Seq<char>,
            |
                {
                    let node = state.nodes.at(k);
                    &&& #[trigger] state.nodes.has(k)
                    &&& node.network_id == network_id
                    &&& shown.id == node.id
                    &&& shown.name == node.name
                    &&& shown.dns_name == node.name + seq!['.'] + network.dns_domain
                    &&& shown.ipv4 == node.ipv4
                    &&& shown.ipv6 == node.ipv6
                    &&& shown.wg_public_key == node.wg_public_key
                    &&& shown.machine_public_key == node.machine_public_key
                    &&& shown.endpoints == node.endpoints
                    &&& shown.tags == node.tags
                    &&& shown.routes == node.routes
                    &&& shown.last_seen == node.last_seen
                    &&& shown.approved == in_good_standing(node, network.key_policy, now)
                    &&& shown.key_rotation_required == rotation_due(node, network.key_policy, now)
                    &&& shown.revoked == (node.revoked_at is Some)
                }
        }),
{
    broadcast use vstd::seq_lib::group_filter_ensures;

    let network = state.networks.at(network_id);
    let values = state.nodes.values();
    let p = |node: NodeStateView| node.network_id == network_id;
    let found = values.filter(p);
    let listed = nodes_listed(state, network_id, now)->Ok_0.nodes;
    if listed.contains(shown) {
        let i = listed.index_of(shown);
        assert(found.contains(found[i]));
        lemma_filter_subset(values, p, found[i]);
        let j = values.index_of(found[i]);
        state.nodes.lemma_index(j);
        assert(state.nodes.has(state.nodes.keys[j]));
    }
    assert forall|k: Seq<char>|
        #![trigger state.nodes.has(k)]
        state.nodes.has(k) && state.nodes.at(k).network_id == network_id implies listed.contains(
        node_info_at(state.nodes.at(k), network, now),
    ) by {
        assert(state.nodes.keys.contains(k));
        let j = state.nodes.keys.index_of(k);
        assert(values[j] == state.nodes.at(k));
        assert(found.contains(values[j]));
        let i = found.index_of(values[j]);
        assert(listed[i] == node_info_at(state.nodes.at(k), network, now));
    }
}

} // verus!
