//! How nodes join a network and are approved.
use vstd::prelude::*;

use crate::audit::{field, named, text_or_null, text_value};
use crate::auth::{admin_allowed, require_admin, Headers};
use crate::consistency::consistent;
use crate::error::{outcome, ApiError};
use crate::ids::{is_id, is_secret, new_id, now_unix, random_secret};
use crate::keys::{expires_at, expiry, fresh_key};
use crate::laws::{lemma_registered, lemma_url_registered, law_node_approved, next_v6};
use crate::model::{
    clone_list, ApproveNodeResponse, ApproveNodeResponseView, AuditDetail, AuditDetailView,
    AuditEntry, AuditEntryView, AuditField, AuditValue, AuditValueView, KeyRecord, KeyRecordView,
    KeyType, NetworkState, NetworkStateView, NodeState, NodeStateView, RegisterRequest,
    RegisterRequestView, RegisterResponse, RegisterResponseView, RegisterUrlRequest,
    RegisterUrlRequestView, RegisterUrlResponse, RegisterUrlResponseView, RelayConfig,
    RelayConfigView, RouteView, TokenState, TokenStateView,
};
use crate::net::{
    dotted, ipv4_net_of, ipv4_text, ipv6_net_of, ipv6_text, ipv6_text_of, last_offset4,
    last_offset6, law_dotted, law_offset4, law_offset6, max_ipv4_offset, max_ipv6_offset,
    parse_ipv4_net, parse_ipv6_net, parsed_ipv6, Ipv4Net, Ipv6Net,
};
use crate::netmap::{build_netmap, is_netmap_of, relay_offered, relay_or_none};
use crate::state::{
    build_audit_entry, written, AuditStamp, AuditStampView, State, StateView,
};
use crate::text::{eq_ignore_ascii_case, same_ignoring_case, same_text, trim, trimmed};

verus! {

/// A node's name without the white space around it, if anything is left.
pub open spec fn normalized_name(name: Seq<char>) -> Result<Seq<char>, ApiError> {
    if trimmed(name).len() == 0 {
        Err(ApiError::BadRequest("node name must be non-empty"))
    } else {
        Ok(trimmed(name))
    }
}

/// A node's name without the white space around it, if anything is left.
pub fn normalize_node_name(name: &str) -> (r: Result<String, ApiError>)
    ensures
        outcome(r) == normalized_name(name@),
{
    let name: String = trim(name);
    if name.as_str().is_empty() {
        Err(ApiError::BadRequest("node name must be non-empty"))
    } else {
        Ok(name)
    }
}

/// Whether a node bears a name in a network, whatever the case of ASCII letters. Revoked nodes
/// bear none, and one node may be left out.
pub open spec fn bears_name(
    node: NodeStateView,
    network_id: Seq<char>,
    name: Seq<char>,
    exclude_node_id: Option<Seq<char>>,
) -> bool {
    &&& node.network_id == network_id
    &&& node.revoked_at is None
    &&& exclude_node_id != Some(node.id)
    &&& same_ignoring_case(node.name, name)
}

/// Whether some node bears a name in a network.
pub open spec fn name_taken(
    state: StateView,
    network_id: Seq<char>,
    name: Seq<char>,
    exclude_node_id: Option<Seq<char>>,
) -> bool {
    exists|k: Seq<char>| #[trigger]
        state.nodes.has(k) && bears_name(state.nodes.at(k), network_id, name, exclude_node_id)
}

/// Refuses a name that another node of the network bears.
pub fn ensure_unique_node_name(
    state: &State,
    network_id: &str,
    name: &str,
    exclude_node_id: Option<&str>,
) -> (r: Result<(), ApiError>)
    requires
        state.wf(),
    ensures
        r == (if name_taken(
            state.deep_view(),
            network_id@,
            name@,
            exclude_node_id.deep_view(),
        ) {
            Err::<(), ApiError>(ApiError::Conflict("node name already exists"))
        } else {
            Ok(())
        }),
{
    let ghost nodes = state.nodes.deep_view();
    let total: usize = state.nodes.len();
    let mut i: usize = 0;
    proof {
        state.lemma_wf();
    }
    while i < total
        invariant
            state.wf(),
            state.deep_view().wf(),
            nodes == state.deep_view().nodes,
            total == nodes.keys.len(),
            i <= total,
            forall|k: int|
                0 <= k < i ==> !bears_name(
                    nodes.at(#[trigger] nodes.keys[k]),
                    network_id@,
                    name@,
                    exclude_node_id.deep_view(),
                ),
        decreases total - i,
    {
        let node: &NodeState = state.nodes.value_at(i);
        let excluded: bool = match exclude_node_id {
            Some(id) => same_text(node.id.as_str(), id),
            None => false,
        };
        if same_text(node.network_id.as_str(), network_id) && node.revoked_at.is_none()
            && !excluded && eq_ignore_ascii_case(node.name.as_str(), name) {
            proof {
                nodes.lemma_index(i as int);
                assert(nodes.has(nodes.keys[i as int]));
            }
            return Err(ApiError::Conflict("node name already exists"));
        }
        i = i + 1;
    }
    proof {
        assert forall|k: Seq<char>| #[trigger] nodes.has(k) implies !bears_name(
            nodes.at(k),
            network_id@,
            name@,
            exclude_node_id.deep_view(),
        ) by {
            assert(nodes.keys.contains(k));
            assert(nodes.keys[nodes.keys.index_of(k)] == k);
        }
    }
    Ok(())
}

/// The two addresses that a network gives to its next node, and the network after that. An IPv4
/// address is spent even where no IPv6 address is left.
pub open spec fn allocated(network: NetworkStateView) -> (
    NetworkStateView,
    Result<(Seq<char>, Seq<char>), ApiError>,
) {
    match (ipv4_net_of(network.overlay_v4), ipv6_net_of(network.overlay_v6)) {
        (Some(v4), Some(v6)) => match last_offset4(v4) {
            None => (
                network,
                Err(ApiError::Conflict("ipv4 subnet has no usable host addresses")),
            ),
            Some(last4) => if network.next_ipv4 > last4 {
                (network, Err(ApiError::Conflict("ipv4 address space exhausted")))
            } else {
                let spent = NetworkStateView {
                    next_ipv4: (network.next_ipv4 + 1) as u32,
                    ..network
                };
                if network.next_ipv6 > last_offset6(v6) {
                    (spent, Err(ApiError::Conflict("ipv6 address space exhausted")))
                } else {
                    (
                        NetworkStateView {
                            next_ipv6: if network.next_ipv6 == u128::MAX {
                                0
                            } else {
                                (network.next_ipv6 + 1) as u128
                            },
                            ..spent
                        },
                        Ok(
                            (
                                dotted((v4.first() + network.next_ipv4) as u32),
                                ipv6_text_of((v6.first() + network.next_ipv6) as u128),
                            ),
                        ),
                    )
                }
            },
        },
        _ => (network, Err(ApiError::Internal)),
    }
}

/// Gives the next node of a network its addresses.
pub fn allocate_node_ips(network: &mut NetworkState) -> (r: Result<(String, String), ApiError>)
    ensures
        (final(network).deep_view(), outcome(r)) == allocated(old(network).deep_view()),
        r matches Ok(ips) ==> {
            let v6 = ipv6_net_of(old(network).deep_view().overlay_v6)->0;
            parsed_ipv6(ips.1@) == Some((v6.first() + old(network).next_ipv6) as u128)
        },
{
    let v4: Option<Ipv4Net> = parse_ipv4_net(network.overlay_v4.as_str());
    let v6: Option<Ipv6Net> = parse_ipv6_net(network.overlay_v6.as_str());
    let (v4, v6): (Ipv4Net, Ipv6Net) = match (v4, v6) {
        (Some(v4), Some(v6)) => (v4, v6),
        _ => {
            return Err(ApiError::Internal);
        },
    };
    let max_ipv4: u32 = match max_ipv4_offset(&v4) {
        Some(max) => max,
        None => {
            return Err(ApiError::Conflict("ipv4 subnet has no usable host addresses"));
        },
    };
    if network.next_ipv4 > max_ipv4 {
        return Err(ApiError::Conflict("ipv4 address space exhausted"));
    }
    proof {
        v4.lemma_range();
        v6.lemma_range();
    }
    let ip4: u32 = v4.network() + network.next_ipv4;
    network.next_ipv4 = network.next_ipv4 + 1;
    let max_ipv6: u128 = max_ipv6_offset(&v6);
    if network.next_ipv6 > max_ipv6 {
        return Err(ApiError::Conflict("ipv6 address space exhausted"));
    }
    let ip6: u128 = v6.network() + network.next_ipv6;
    network.next_ipv6 = if network.next_ipv6 == u128::MAX {
        0
    } else {
        network.next_ipv6 + 1
    };
    Ok((ipv4_text(ip4), ipv6_text(ip6)))
}

/// A network after `times` nodes were given addresses, or were to be.
pub open spec fn allocated_times(network: NetworkStateView, times: nat) -> NetworkStateView
    decreases times,
{
    if times == 0 {
        network
    } else {
        allocated(allocated_times(network, (times - 1) as nat)).0
    }
}

/// What the node gets that comes after `earlier` others.
pub open spec fn allocation(network: NetworkStateView, earlier: nat) -> Result<
    (Seq<char>, Seq<char>),
    ApiError,
> {
    allocated(allocated_times(network, earlier)).1
}

/// While nodes are given addresses, a network counts them and changes in nothing else.
proof fn lemma_allocated_times(network: NetworkStateView, times: nat)
    requires
        forall|i: nat| i < times ==> #[trigger] allocation(network, i) is Ok,
        network.next_ipv6 + times <= u128::MAX,
    ensures
        allocated_times(network, times) == (NetworkStateView {
            next_ipv4: (network.next_ipv4 + times) as u32,
            next_ipv6: (network.next_ipv6 + times) as u128,
            ..network
        }),
        network.next_ipv4 + times <= u32::MAX,
    decreases times,
{
    if times > 0 {
        let before = (times - 1) as nat;
        lemma_allocated_times(network, before);
        assert(allocation(network, before) is Ok);
        let v4 = ipv4_net_of(network.overlay_v4)->0;
        v4.lemma_range();
        if network.next_ipv4 + before > 0 {
            law_offset4(v4, network.next_ipv4 + before);
        }
    }
}

/// Nodes that are given addresses one after the other get the addresses that follow each other in
/// both ranges: inside them, never the first or the last IPv4 address, and none twice. Of the IPv6
/// addresses this is said of the addresses themselves; their texts differ wherever they read back.
pub proof fn law_consecutive_allocations(network: NetworkStateView, times: nat)
    requires
        ipv4_net_of(network.overlay_v4) is Some,
        ipv6_net_of(network.overlay_v6) is Some,
        network.next_ipv4 >= 1,
        network.next_ipv6 + times <= u128::MAX,
        forall|i: nat| i < times ==> #[trigger] allocation(network, i) is Ok,
    ensures
        ({
            let v4 = ipv4_net_of(network.overlay_v4)->0;
            let v6 = ipv6_net_of(network.overlay_v6)->0;
            let start4 = v4.first() + network.next_ipv4;
            let start6 = v6.first() + network.next_ipv6;
            &&& allocated_times(network, times) == (NetworkStateView {
                next_ipv4: (network.next_ipv4 + times) as u32,
                next_ipv6: (network.next_ipv6 + times) as u128,
                ..network
            })
            &&& network.next_ipv4 + times <= u32::MAX
            &&& forall|i: nat|
                i < times ==> {
                    &&& #[trigger] allocation(network, i) == Ok::<(Seq<char>, Seq<char>), ApiError>(
                        (dotted((start4 + i) as u32), ipv6_text_of((start6 + i) as u128)),
                    )
                    &&& v4.first() < start4 + i < v4.last() <= u32::MAX
                    &&& v6.has(start6 + i)
                    &&& start6 + i <= u128::MAX
                }
            &&& forall|i: nat, j: nat|
                #![trigger allocation(network, i), allocation(network, j)]
                i < j < times ==> {
                    let one = allocation(network, i)->Ok_0;
                    let other = allocation(network, j)->Ok_0;
                    &&& one.0 != other.0
                    &&& parsed_ipv6(one.1) == Some((start6 + i) as u128) && parsed_ipv6(other.1)
                        == Some((start6 + j) as u128) ==> one.1 != other.1
                }
        }),
{
    let v4 = ipv4_net_of(network.overlay_v4)->0;
    let v6 = ipv6_net_of(network.overlay_v6)->0;
    let start4 = v4.first() + network.next_ipv4;
    let start6 = v6.first() + network.next_ipv6;
    lemma_allocated_times(network, times);
    assert forall|i: nat| i < times implies {
        &&& #[trigger] allocation(network, i) == Ok::<(Seq<char>, Seq<char>), ApiError>(
            (dotted((start4 + i) as u32), ipv6_text_of((start6 + i) as u128)),
        )
        &&& v4.first() < start4 + i < v4.last() <= u32::MAX
        &&& v6.has(start6 + i)
        &&& start6 + i <= u128::MAX
    } by {
        lemma_allocated_times(network, i);
        assert(allocation(network, i) is Ok);
        law_offset4(v4, network.next_ipv4 + i);
        law_offset6(v6, network.next_ipv6 + i);
    }
    assert forall|i: nat, j: nat|
        #![trigger allocation(network, i), allocation(network, j)]
        i < j < times implies {
        let one = allocation(network, i)->Ok_0;
        let other = allocation(network, j)->Ok_0;
        &&& one.0 != other.0
        &&& parsed_ipv6(one.1) == Some((start6 + i) as u128) && parsed_ipv6(other.1) == Some(
            (start6 + j) as u128,
        ) ==> one.1 != other.1
    } by {
        assert(allocation(network, i) is Ok && allocation(network, j) is Ok);
        v4.lemma_range();
        v6.lemma_range();
        assert(((start4 + i) as u32) != ((start4 + j) as u32));
        assert(((start6 + i) as u128) != ((start6 + j) as u128));
        law_dotted((start4 + i) as u32, (start4 + j) as u32);
    }
}

/// What is drawn for a node that joins with a token.
pub struct RegisterDraws {
    pub now: i64,
    pub node_id: String,
    pub node_token: String,
    pub stamp: AuditStamp,
}

/// What [`RegisterDraws`] holds.
#[verifier::ext_equal]
pub struct RegisterDrawsView {
    pub now: i64,
    pub node_id: Seq<char>,
    pub node_token: Seq<char>,
    pub stamp: AuditStampView,
}

impl DeepView for RegisterDraws {
    type V = RegisterDrawsView;

    open spec fn deep_view(&self) -> RegisterDrawsView {
        RegisterDrawsView {
            now: self.now,
            node_id: self.node_id@,
            node_token: self.node_token@,
            stamp: self.stamp.deep_view(),
        }
    }
}

impl RegisterDrawsView {
    /// Identifiers and secrets were drawn as such.
    pub open spec fn wf(self) -> bool {
        is_id(self.node_id) && is_secret(self.node_token) && self.stamp.wf()
    }
}

/// The records of the two keys that a node joins with.
pub open spec fn first_keys(machine: Seq<char>, wg: Seq<char>, now: i64) -> Seq<KeyRecordView> {
    seq![fresh_key(KeyType::Machine, machine, now), fresh_key(KeyType::WireGuard, wg, now)]
}

/// The records of the two keys that a node joins with.
fn initial_keys(machine: &String, wg: &String, now: i64) -> (r: Vec<KeyRecord>)
    ensures
        r.deep_view() == first_keys(machine@, wg@, now),
{
    let mut keys: Vec<KeyRecord> = Vec::new();
    keys.push(
        KeyRecord {
            key_type: KeyType::Machine,
            public_key: machine.clone(),
            created_at: now,
            revoked_at: None,
        },
    );
    keys.push(
        KeyRecord {
            key_type: KeyType::WireGuard,
            public_key: wg.clone(),
            created_at: now,
            revoked_at: None,
        },
    );
    assert(keys.deep_view() =~= first_keys(machine@, wg@, now));
    keys
}

/// Why a token does not let a node join, if it does not.
pub open spec fn token_refusal(token: Option<TokenStateView>, now: i64) -> Option<ApiError> {
    match token {
        None => Some(ApiError::Unauthorized("token not found")),
        Some(token) => if token.expires_at <= now {
            Some(ApiError::Unauthorized("token expired"))
        } else if token.revoked_at is Some {
            Some(ApiError::Unauthorized("token revoked"))
        } else if token.uses_left == 0 {
            Some(ApiError::Unauthorized("token used up"))
        } else {
            None
        },
    }
}

/// The node that joins with a token.
pub open spec fn token_node(
    token: TokenStateView,
    network: NetworkStateView,
    req: RegisterRequestView,
    name: Seq<char>,
    ips: (Seq<char>, Seq<char>),
    draws: RegisterDrawsView,
) -> NodeStateView {
    let approved = !network.requires_approval;
    NodeStateView {
        id: draws.node_id,
        network_id: network.id,
        name,
        machine_public_key: req.machine_public_key,
        wg_public_key: req.wg_public_key,
        ipv4: ips.0,
        ipv6: ips.1,
        endpoints: Seq::empty(),
        tags: token.tags,
        owner_user_id: token.owner_user_id,
        owner_email: token.owner_email,
        owner_is_admin: token.owner_is_admin,
        routes: Seq::empty(),
        created_at: draws.now,
        last_seen: draws.now,
        probe_requested_at: None,
        approved,
        approved_at: if approved {
            Some(draws.now)
        } else {
            None
        },
        auth_secret: None,
        auth_expires_at: None,
        node_token: Some(draws.node_token),
        revoked_at: None,
        key_history: first_keys(req.machine_public_key, req.wg_public_key, draws.now),
    }
}

/// What the log says of a node that joined with a token.
pub open spec fn register_entry(node: NodeStateView, stamp: AuditStampView) -> AuditEntryView {
    AuditEntryView::of(
        stamp,
        "node.register"@,
        Some(node.network_id),
        Some(node.id),
        Some(
            AuditDetailView::Fields(
                seq![
                    named("approved"@, AuditValueView::Bool(node.approved)),
                    named("owner_user_id"@, text_or_null(node.owner_user_id)),
                    named("owner_email"@, text_or_null(node.owner_email)),
                    named("owner_is_admin"@, AuditValueView::Bool(node.owner_is_admin)),
                ],
            ),
        ),
    )
}

/// The tokens after one was used once more; one without uses left is gone.
pub open spec fn token_spent(
    state: StateView,
    id: Seq<char>,
    token: TokenStateView,
) -> StateView {
    StateView {
        tokens: if token.uses_left == 1 {
            state.tokens.remove(id)
        } else {
            state.tokens.insert(
                id,
                TokenStateView { uses_left: (token.uses_left - 1) as u32, ..token },
            )
        },
        ..state
    }
}

/// What becomes of the state when a node asks to join with a token, and the identifier that the
/// node gets.
pub open spec fn registered(
    state: StateView,
    req: RegisterRequestView,
    draws: RegisterDrawsView,
) -> (StateView, Result<Seq<char>, ApiError>) {
    match normalized_name(req.node_name) {
        Err(refusal) => (state, Err(refusal)),
        Ok(name) => match token_refusal(state.tokens.find(req.token), draws.now) {
            Some(refusal) => (state, Err(refusal)),
            None => {
                let token = state.tokens.at(req.token);
                if name_taken(state, token.network_id, name, None) {
                    (state, Err(ApiError::Conflict("node name already exists")))
                } else {
                    match state.networks.find(token.network_id) {
                        None => (state, Err(ApiError::NotFound("network"))),
                        Some(network) => {
                            let (network_after, ips) = allocated(network);
                            let spent = StateView {
                                networks: state.networks.insert(token.network_id, network_after),
                                ..state
                            };
                            match ips {
                                Err(refusal) => (spent, Err(refusal)),
                                Ok(ips) => {
                                    let node = token_node(token, network, req, name, ips, draws);
                                    let joined = StateView {
                                        nodes: spent.nodes.insert(node.id, node),
                                        ..spent
                                    }.logged(register_entry(node, draws.stamp));
                                    (token_spent(joined, req.token, token), Ok(node.id))
                                },
                            }
                        },
                    }
                }
            },
        },
    }
}

/// Lets a node join with a token, given what is drawn for it.
#[verifier::rlimit(40)]
pub fn register_node(state: &mut State, req: &RegisterRequest, draws: RegisterDraws) -> (r: Result<
    String,
    ApiError,
>)
    requires
        old(state).wf(),
    ensures
        final(state).wf(),
        (final(state).deep_view(), outcome(r)) == registered(
            old(state).deep_view(),
            req.deep_view(),
            draws.deep_view(),
        ),
        r matches Ok(id) ==> parsed_ipv6(final(state).deep_view().nodes.at(id@).ipv6) == Some(
            next_v6(
                old(state).deep_view().networks.at(
                    old(state).deep_view().tokens.at(req.deep_view().token).network_id,
                ),
            ),
        ),
{
    let name: String = match normalize_node_name(req.node_name.as_str()) {
        Ok(name) => name,
        Err(refusal) => {
            return Err(refusal);
        },
    };
    let token: TokenState = match state.tokens.get(req.token.as_str()) {
        Some(token) => token.clone(),
        None => {
            return Err(ApiError::Unauthorized("token not found"));
        },
    };
    if token.expires_at <= draws.now {
        return Err(ApiError::Unauthorized("token expired"));
    }
    if token.revoked_at.is_some() {
        return Err(ApiError::Unauthorized("token revoked"));
    }
    if token.uses_left == 0 {
        return Err(ApiError::Unauthorized("token used up"));
    }
    if let Err(refusal) = ensure_unique_node_name(
        state,
        token.network_id.as_str(),
        name.as_str(),
        None,
    ) {
        return Err(refusal);
    }
    let (ips, network_id, requires_approval): (
        Result<(String, String), ApiError>,
        String,
        bool,
    ) = match state.networks.get_mut(token.network_id.as_str()) {
        Some(network) => {
            let ips: Result<(String, String), ApiError> = allocate_node_ips(network);
            (ips, network.id.clone(), network.requires_approval)
        },
        None => {
            return Err(ApiError::NotFound("network"));
        },
    };
    let (ipv4, ipv6): (String, String) = match ips {
        Ok(ips) => ips,
        Err(refusal) => {
            return Err(refusal);
        },
    };
    let now: i64 = draws.now;
    let approved: bool = !requires_approval;
    let node = NodeState {
        id: draws.node_id,
        network_id,
        name,
        machine_public_key: req.machine_public_key.clone(),
        wg_public_key: req.wg_public_key.clone(),
        ipv4,
        ipv6,
        endpoints: Vec::new(),
        tags: clone_list(&token.tags),
        owner_user_id: token.owner_user_id.clone(),
        owner_email: token.owner_email.clone(),
        owner_is_admin: token.owner_is_admin,
        routes: Vec::new(),
        created_at: now,
        last_seen: now,
        probe_requested_at: None,
        approved,
        approved_at: if approved {
            Some(now)
        } else {
            None
        },
        auth_secret: None,
        auth_expires_at: None,
        node_token: Some(draws.node_token),
        revoked_at: None,
        key_history: initial_keys(&req.machine_public_key, &req.wg_public_key, now),
    };
    let ghost node_view = node.deep_view();
    proof {
        assert(node_view.endpoints =~= Seq::<Seq<char>>::empty());
        assert(node_view.routes =~= Seq::<RouteView>::empty());
    }
    let node_id: String = node.id.clone();
    let entry = register_record(&node, draws.stamp);
    state.nodes.insert(node_id.clone(), node);
    state.log(entry);
    if token.uses_left == 1 {
        state.tokens.remove(req.token.as_str());
    } else {
        let left: u32 = token.uses_left - 1;
        state.tokens.insert(req.token.clone(), TokenState { uses_left: left, ..token });
    }
    Ok(node_id)
}

/// What the log says of a node that joined with a token.
fn register_record(node: &NodeState, stamp: AuditStamp) -> (r: AuditEntry)
    ensures
        r.deep_view() == register_entry(node.deep_view(), stamp.deep_view()),
{
    let fields: Vec<AuditField> = vec![
        field("approved", AuditValue::Bool(node.approved)),
        field("owner_user_id", text_value(&node.owner_user_id)),
        field("owner_email", text_value(&node.owner_email)),
        field("owner_is_admin", AuditValue::Bool(node.owner_is_admin)),
    ];
    let ghost view = node.deep_view();
    assert(fields.deep_view() =~= seq![
        named("approved"@, AuditValueView::Bool(view.approved)),
        named("owner_user_id"@, text_or_null(view.owner_user_id)),
        named("owner_email"@, text_or_null(view.owner_email)),
        named("owner_is_admin"@, AuditValueView::Bool(view.owner_is_admin)),
    ]);
    build_audit_entry(
        stamp,
        "node.register",
        Some(node.network_id.clone()),
        Some(node.id.clone()),
        Some(AuditDetail::Fields(fields)),
    )
}

/// Whether a node that asked to join with a token was answered right: the refusal, or its own
/// token and what it learns of its network afterwards.
pub open spec fn is_register_answer(
    r: Result<RegisterResponseView, ApiError>,
    joined: (StateView, Result<Seq<char>, ApiError>),
    relay: RelayConfigView,
    node_token: Seq<char>,
) -> bool {
    match joined.1 {
        Err(refusal) => r == Err::<RegisterResponseView, ApiError>(refusal),
        Ok(node_id) => match r {
            Ok(answer) => answer.node_token == node_token && is_netmap_of(
                Ok(answer.netmap),
                joined.0,
                node_id,
                relay_offered(relay),
            ),
            Err(error) => is_netmap_of(Err(error), joined.0, node_id, relay_offered(relay)),
        },
    }
}

/// Answers a node that asks to join with a token.
pub fn register(state: &mut State, relay: &RelayConfig, req: &RegisterRequest) -> (r: Result<
    RegisterResponse,
    ApiError,
>)
    requires
        old(state).wf(),
    ensures
        final(state).wf(),
        consistent(old(state).deep_view()) ==> consistent(final(state).deep_view()),
        exists|draws: RegisterDrawsView|
            {
                let joined = written(
                    #[trigger] registered(old(state).deep_view(), req.deep_view(), draws),
                );
                &&& draws.wf()
                &&& final(state).deep_view() == joined.0
                &&& is_register_answer(outcome(r), joined, relay.deep_view(), draws.node_token)
            },
{
    let now: i64 = now_unix();
    let node_token: String = random_secret();
    let answer_token: String = node_token.clone();
    let draws = RegisterDraws { now, node_id: new_id(), node_token, stamp: AuditStamp::draw() };
    let ghost drawn = draws.deep_view();
    let ghost joined = written(registered(old(state).deep_view(), req.deep_view(), drawn));
    let result = register_node(state, req, draws);
    proof {
        if consistent(old(state).deep_view()) {
            lemma_registered(old(state).deep_view(), req.deep_view(), drawn);
        }
    }
    match result {
        Ok(node_id) => {
            state.bump();
            match build_netmap(state, node_id.as_str(), relay_or_none(relay)) {
                Ok(netmap) => {
                    let answer = RegisterResponse { node_token: answer_token, netmap };
                    proof {
                        assert(is_register_answer(
                            Ok(answer.deep_view()),
                            joined,
                            relay.deep_view(),
                            drawn.node_token,
                        ));
                    }
                    Ok(answer)
                },
                Err(error) => Err(error),
            }
        },
        Err(refusal) => Err(refusal),
    }
}

/// What is drawn for a node that joins and waits for approval.
pub struct RegisterUrlDraws {
    pub now: i64,
    pub node_id: String,
    pub node_token: String,
    pub auth_secret: String,
    pub stamp: AuditStamp,
}

/// What [`RegisterUrlDraws`] holds.
#[verifier::ext_equal]
pub struct RegisterUrlDrawsView {
    pub now: i64,
    pub node_id: Seq<char>,
    pub node_token: Seq<char>,
    pub auth_secret: Seq<char>,
    pub stamp: AuditStampView,
}

impl DeepView for RegisterUrlDraws {
    type V = RegisterUrlDrawsView;

    open spec fn deep_view(&self) -> RegisterUrlDrawsView {
        RegisterUrlDrawsView {
            now: self.now,
            node_id: self.node_id@,
            node_token: self.node_token@,
            auth_secret: self.auth_secret@,
            stamp: self.stamp.deep_view(),
        }
    }
}

impl RegisterUrlDrawsView {
    /// Identifiers and secrets were drawn as such.
    pub open spec fn wf(self) -> bool {
        is_id(self.node_id) && is_secret(self.node_token) && is_secret(self.auth_secret)
            && self.stamp.wf()
    }
}

/// The path under which a node that waits is approved.
pub open spec fn approval_path(node_id: Seq<char>, secret: Seq<char>) -> Seq<char> {
    "/v1/register/approve/"@ + node_id + seq!['/'] + secret
}

/// How long the approval of a node may take: as asked, or ten minutes.
pub open spec fn approval_ttl(req: RegisterUrlRequestView) -> u64 {
    match req.ttl_seconds {
        Some(ttl) => ttl,
        None => 600,
    }
}

/// The node that joins and waits for approval.
pub open spec fn waiting_node(
    network: NetworkStateView,
    req: RegisterUrlRequestView,
    name: Seq<char>,
    ips: (Seq<char>, Seq<char>),
    draws: RegisterUrlDrawsView,
) -> NodeStateView {
    NodeStateView {
        id: draws.node_id,
        network_id: network.id,
        name,
        machine_public_key: req.machine_public_key,
        wg_public_key: req.wg_public_key,
        ipv4: ips.0,
        ipv6: ips.1,
        endpoints: Seq::empty(),
        tags: Seq::empty(),
        owner_user_id: None,
        owner_email: None,
        owner_is_admin: true,
        routes: Seq::empty(),
        created_at: draws.now,
        last_seen: draws.now,
        probe_requested_at: None,
        approved: false,
        approved_at: None,
        auth_secret: Some(draws.auth_secret),
        auth_expires_at: Some(expiry(draws.now, approval_ttl(req))),
        node_token: Some(draws.node_token),
        revoked_at: None,
        key_history: first_keys(req.machine_public_key, req.wg_public_key, draws.now),
    }
}

/// What the log says of a node that joined and waits for approval.
pub open spec fn register_url_entry(
    node: NodeStateView,
    expires: i64,
    stamp: AuditStampView,
) -> AuditEntryView {
    AuditEntryView::of(
        stamp,
        "node.register_url"@,
        Some(node.network_id),
        Some(node.id),
        Some(AuditDetailView::Fields(seq![named("expires_at"@, AuditValueView::Int(expires))])),
    )
}

/// What becomes of the state when a node asks to join and wait for approval, and what the node is
/// answered.
pub open spec fn url_registered(
    state: StateView,
    req: RegisterUrlRequestView,
    draws: RegisterUrlDrawsView,
) -> (StateView, Result<RegisterUrlResponseView, ApiError>) {
    if approval_ttl(req) == 0 {
        (state, Err(ApiError::BadRequest("ttl_seconds must be > 0")))
    } else {
        match normalized_name(req.node_name) {
            Err(refusal) => (state, Err(refusal)),
            Ok(name) => if name_taken(state, req.network_id, name, None) {
                (state, Err(ApiError::Conflict("node name already exists")))
            } else {
                match state.networks.find(req.network_id) {
                    None => (state, Err(ApiError::NotFound("network"))),
                    Some(network) => {
                        let (network_after, ips) = allocated(network);
                        let spent = StateView {
                            networks: state.networks.insert(req.network_id, network_after),
                            ..state
                        };
                        match ips {
                            Err(refusal) => (spent, Err(refusal)),
                            Ok(ips) => {
                                let node = waiting_node(network, req, name, ips, draws);
                                let expires = expiry(draws.now, approval_ttl(req));
                                (
                                    StateView {
                                        nodes: spent.nodes.insert(node.id, node),
                                        ..spent
                                    }.logged(register_url_entry(node, expires, draws.stamp)),
                                    Ok(
                                        RegisterUrlResponseView {
                                            node_id: node.id,
                                            network_id: node.network_id,
                                            ipv4: node.ipv4,
                                            ipv6: node.ipv6,
                                            auth_path: approval_path(node.id, draws.auth_secret),
                                            expires_at: expires,
                                            node_token: draws.node_token,
                                        },
                                    ),
                                )
                            },
                        }
                    },
                }
            },
        }
    }
}

/// Lets a node join and wait for approval, given what is drawn for it.
#[verifier::rlimit(40)]
pub fn register_waiting_node(
    state: &mut State,
    req: &RegisterUrlRequest,
    draws: RegisterUrlDraws,
) -> (r: Result<RegisterUrlResponse, ApiError>)
    requires
        old(state).wf(),
    ensures
        final(state).wf(),
        (final(state).deep_view(), outcome(r)) == url_registered(
            old(state).deep_view(),
            req.deep_view(),
            draws.deep_view(),
        ),
        r matches Ok(answer) ==> parsed_ipv6(answer.ipv6@) == Some(
            next_v6(old(state).deep_view().networks.at(req.deep_view().network_id)),
        ),
{
    let ttl_seconds: u64 = match req.ttl_seconds {
        Some(ttl) => ttl,
        None => 600,
    };
    if ttl_seconds == 0 {
        return Err(ApiError::BadRequest("ttl_seconds must be > 0"));
    }
    let now: i64 = draws.now;
    let expires: i64 = expires_at(now, ttl_seconds);
    let name: String = match normalize_node_name(req.node_name.as_str()) {
        Ok(name) => name,
        Err(refusal) => {
            return Err(refusal);
        },
    };
    if let Err(refusal) = ensure_unique_node_name(
        state,
        req.network_id.as_str(),
        name.as_str(),
        None,
    ) {
        return Err(refusal);
    }
    let (ips, network_id): (Result<(String, String), ApiError>, String) =
        match state.networks.get_mut(req.network_id.as_str()) {
        Some(network) => {
            let ips: Result<(String, String), ApiError> = allocate_node_ips(network);
            (ips, network.id.clone())
        },
        None => {
            return Err(ApiError::NotFound("network"));
        },
    };
    let (ipv4, ipv6): (String, String) = match ips {
        Ok(ips) => ips,
        Err(refusal) => {
            return Err(refusal);
        },
    };
    let answer = RegisterUrlResponse {
        node_id: draws.node_id.clone(),
        network_id: network_id.clone(),
        ipv4: ipv4.clone(),
        ipv6: ipv6.clone(),
        auth_path: auth_path(draws.node_id.as_str(), draws.auth_secret.as_str()),
        expires_at: expires,
        node_token: draws.node_token.clone(),
    };
    let node = NodeState {
        id: draws.node_id,
        network_id,
        name,
        machine_public_key: req.machine_public_key.clone(),
        wg_public_key: req.wg_public_key.clone(),
        ipv4,
        ipv6,
        endpoints: Vec::new(),
        tags: Vec::new(),
        owner_user_id: None,
        owner_email: None,
        owner_is_admin: true,
        routes: Vec::new(),
        created_at: now,
        last_seen: now,
        probe_requested_at: None,
        approved: false,
        approved_at: None,
        auth_secret: Some(draws.auth_secret),
        auth_expires_at: Some(expires),
        node_token: Some(draws.node_token),
        revoked_at: None,
        key_history: initial_keys(&req.machine_public_key, &req.wg_public_key, now),
    };
    proof {
        let view = node.deep_view();
        assert(view.endpoints =~= Seq::<Seq<char>>::empty());
        assert(view.tags =~= Seq::<Seq<char>>::empty());
        assert(view.routes =~= Seq::<RouteView>::empty());
    }
    let node_id: String = node.id.clone();
    let entry: AuditEntry = register_url_record(&node, expires, draws.stamp);
    state.nodes.insert(node_id, node);
    state.log(entry);
    Ok(answer)
}

/// The path under which a node that waits is approved.
fn auth_path(node_id: &str, secret: &str) -> (r: String)
    ensures
        r@ == approval_path(node_id@, secret@),
{
    let mut out: String = "/v1/register/approve/".to_owned();
    out.append(node_id);
    out.push('/');
    out.append(secret);
    assert(out@ =~= approval_path(node_id@, secret@));
    out
}

/// What the log says of a node that joined and waits for approval.
fn register_url_record(node: &NodeState, expires: i64, stamp: AuditStamp) -> (r: AuditEntry)
    ensures
        r.deep_view() == register_url_entry(node.deep_view(), expires, stamp.deep_view()),
{
    let fields: Vec<AuditField> = vec![field("expires_at", AuditValue::Int(expires))];
    assert(fields.deep_view() =~= seq![named("expires_at"@, AuditValueView::Int(expires))]);
    build_audit_entry(
        stamp,
        "node.register_url",
        Some(node.network_id.clone()),
        Some(node.id.clone()),
        Some(AuditDetail::Fields(fields)),
    )
}

/// Answers a node that asks to join and wait for approval.
pub fn register_url(state: &mut State, req: &RegisterUrlRequest) -> (r: Result<
    RegisterUrlResponse,
    ApiError,
>)
    requires
        old(state).wf(),
    ensures
        final(state).wf(),
        consistent(old(state).deep_view()) ==> consistent(final(state).deep_view()),
        exists|draws: RegisterUrlDrawsView|
            draws.wf() && (final(state).deep_view(), outcome(r)) == written(
                #[trigger] url_registered(old(state).deep_view(), req.deep_view(), draws),
            ),
{
    let draws = RegisterUrlDraws {
        now: now_unix(),
        node_id: new_id(),
        node_token: random_secret(),
        auth_secret: random_secret(),
        stamp: AuditStamp::draw(),
    };
    let ghost drawn = draws.deep_view();
    assert(drawn.wf());
    let result = register_waiting_node(state, req, draws);
    proof {
        if consistent(old(state).deep_view()) {
            lemma_url_registered(old(state).deep_view(), req.deep_view(), drawn);
        }
    }
    match result {
        Ok(answer) => {
            state.bump();
            Ok(answer)
        },
        Err(refusal) => Err(refusal),
    }
}

/// A node after its approval.
pub open spec fn approved_node(node: NodeStateView, now: i64) -> NodeStateView {
    NodeStateView {
        approved: true,
        approved_at: Some(now),
        auth_secret: None,
        auth_expires_at: None,
        ..node
    }
}

/// What the log says of an approval.
pub open spec fn approve_entry(
    node: NodeStateView,
    now: i64,
    via: Seq<char>,
    stamp: AuditStampView,
) -> AuditEntryView {
    AuditEntryView::of(
        stamp,
        "node.approve"@,
        Some(node.network_id),
        Some(node.id),
        Some(
            AuditDetailView::Fields(
                seq![
                    named("approved_at"@, AuditValueView::Int(now)),
                    named("via"@, AuditValueView::Text(via)),
                ],
            ),
        ),
    )
}

/// What is answered of a node that is approved.
pub open spec fn approval_answer(node: NodeStateView) -> ApproveNodeResponseView {
    ApproveNodeResponseView {
        node_id: node.id,
        approved: node.approved,
        approved_at: node.approved_at,
    }
}

/// Why a secret does not approve a node, if it does not.
pub open spec fn secret_refusal(node: NodeStateView, secret: Seq<char>, now: i64) -> Option<
    ApiError,
> {
    match node.auth_secret {
        None => Some(ApiError::Unauthorized("approval not allowed")),
        Some(expected) => if expected != secret {
            Some(ApiError::Unauthorized("invalid approval secret"))
        } else if node.auth_expires_at is Some && node.auth_expires_at->0 <= now {
            Some(ApiError::Unauthorized("approval expired"))
        } else {
            None
        },
    }
}

/// What becomes of the state when a node is to be approved: by an administrator, or by whoever
/// knows its secret. A node that is approved already stays as it is.
pub open spec fn node_approved(
    state: StateView,
    node_id: Seq<char>,
    secret: Option<Seq<char>>,
    now: i64,
    stamp: AuditStampView,
) -> (StateView, Result<ApproveNodeResponseView, ApiError>) {
    match state.nodes.find(node_id) {
        None => (state, Err(ApiError::NotFound("node"))),
        Some(node) => if node.approved {
            (state, Ok(approval_answer(node)))
        } else {
            match (match secret {
                Some(secret) => secret_refusal(node, secret, now),
                None => None,
            }) {
                Some(refusal) => (state, Err(refusal)),
                None => {
                    let after = approved_node(node, now);
                    (
                        StateView {
                            nodes: state.nodes.insert(node_id, after),
                            ..state
                        }.logged(
                            approve_entry(
                                after,
                                now,
                                if secret is Some {
                                    "auth_url"@
                                } else {
                                    "admin"@
                                },
                                stamp,
                            ),
                        ),
                        Ok(approval_answer(after)),
                    )
                },
            }
        },
    }
}

/// Approves a node, given what is drawn for the log.
#[verifier::rlimit(40)]
pub fn approve_at(
    state: &mut State,
    node_id: &str,
    secret: Option<&str>,
    now: i64,
    stamp: AuditStamp,
) -> (r: Result<ApproveNodeResponse, ApiError>)
    requires
        old(state).wf(),
    ensures
        final(state).wf(),
        (final(state).deep_view(), outcome(r)) == node_approved(
            old(state).deep_view(),
            node_id@,
            secret.deep_view(),
            now,
            stamp.deep_view(),
        ),
{
    let node: NodeState = match state.nodes.get(node_id) {
        Some(node) => node.clone(),
        None => {
            return Err(ApiError::NotFound("node"));
        },
    };
    if node.approved {
        return Ok(
            ApproveNodeResponse { node_id: node.id, approved: true, approved_at: node.approved_at },
        );
    }
    if let Some(secret) = secret {
        match &node.auth_secret {
            None => {
                return Err(ApiError::Unauthorized("approval not allowed"));
            },
            Some(expected) => if !same_text(expected.as_str(), secret) {
                return Err(ApiError::Unauthorized("invalid approval secret"));
            },
        }
        if let Some(expires) = node.auth_expires_at {
            if expires <= now {
                return Err(ApiError::Unauthorized("approval expired"));
            }
        }
    }
    let via: &str = match secret {
        Some(_) => "auth_url",
        None => "admin",
    };
    let answer = ApproveNodeResponse {
        node_id: node.id.clone(),
        approved: true,
        approved_at: Some(now),
    };
    let fields: Vec<AuditField> = vec![
        field("approved_at", AuditValue::Int(now)),
        field("via", AuditValue::Text(via.to_owned())),
    ];
    assert(fields.deep_view() =~= seq![
        named("approved_at"@, AuditValueView::Int(now)),
        named("via"@, AuditValueView::Text(via@)),
    ]);
    let entry: AuditEntry = build_audit_entry(
        stamp,
        "node.approve",
        Some(node.network_id.clone()),
        Some(node.id.clone()),
        Some(AuditDetail::Fields(fields)),
    );
    let approved = NodeState {
        approved: true,
        approved_at: Some(now),
        auth_secret: None,
        auth_expires_at: None,
        ..node
    };
    state.nodes.insert(node_id.to_owned(), approved);
    state.log(entry);
    Ok(answer)
}

/// Answers whoever opens the path under which a node that waits is approved.
pub fn approve_node_secret(state: &mut State, node_id: &str, secret: &str) -> (r: Result<
    ApproveNodeResponse,
    ApiError,
>)
    requires
        old(state).wf(),
    ensures
        final(state).wf(),
        consistent(old(state).deep_view()) ==> consistent(final(state).deep_view()),
        exists|now: i64, stamp: AuditStampView|
            stamp.wf() && (final(state).deep_view(), outcome(r)) == written(
                #[trigger] node_approved(
                    old(state).deep_view(),
                    node_id@,
                    Some(secret@),
                    now,
                    stamp,
                ),
            ),
{
    let now: i64 = now_unix();
    let stamp: AuditStamp = AuditStamp::draw();
    let ghost drawn = stamp.deep_view();
    let result = approve_at(state, node_id, Some(secret), now, stamp);
    proof {
        if consistent(old(state).deep_view()) {
            law_node_approved(old(state).deep_view(), node_id@, Some(secret@), now, drawn);
        }
    }
    match result {
        Ok(answer) => {
            state.bump();
            Ok(answer)
        },
        Err(refusal) => Err(refusal),
    }
}

/// Answers an administrator who approves a node.
pub fn approve_node(
    state: &mut State,
    admin_token: &Option<String>,
    headers: &Headers,
    node_id: &str,
) -> (r: Result<ApproveNodeResponse, ApiError>)
    requires
        old(state).wf(),
    ensures
        final(state).wf(),
        consistent(old(state).deep_view()) ==> consistent(final(state).deep_view()),
        !admin_allowed(headers.deep_view(), admin_token.deep_view()) ==> {
            &&& final(state).deep_view() == old(state).deep_view()
            &&& r == Err::<ApproveNodeResponse, ApiError>(
                ApiError::Unauthorized("admin token required"),
            )
        },
        admin_allowed(headers.deep_view(), admin_token.deep_view()) ==> exists|
            now: i64,
            stamp: AuditStampView,
        |
            stamp.wf() && (final(state).deep_view(), outcome(r)) == written(
                #[trigger] node_approved(old(state).deep_view(), node_id@, None, now, stamp),
            ),
{
    if let Err(refusal) = require_admin(headers, admin_token) {
        return Err(refusal);
    }
    let now: i64 = now_unix();
    let stamp: AuditStamp = AuditStamp::draw();
    let ghost drawn = stamp.deep_view();
    let result = approve_at(state, node_id, None, now, stamp);
    proof {
        if consistent(old(state).deep_view()) {
            law_node_approved(old(state).deep_view(), node_id@, None, now, drawn);
        }
    }
    match result {
        Ok(answer) => {
            state.bump();
            Ok(answer)
        },
        Err(refusal) => Err(refusal),
    }
}

} // verus!
