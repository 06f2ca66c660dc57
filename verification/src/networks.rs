//! Networks: how they are made and deleted, and the rules that hold in them.
use vstd::prelude::*;

use crate::audit::{field, named, uint_or_null, uint_value};
use crate::auth::{admin_allowed, require_admin, Headers};
use crate::consistency::consistent;
use crate::error::{outcome, ApiError};
use crate::ids::{
    hex_bytes, hyphenated, is_random_uuid, is_secret, new_uuid, now_unix, random_secret, short_id,
    uuid_text,
};
use crate::laws::{
    law_acl_updated, law_key_policy_updated, law_network_deleted, law_network_created,
};
use crate::model::{
    clone_list, AclPolicy, AclPolicyView, AuditDetail, AuditDetailView, AuditEntry, AuditEntryView,
    AuditField, AuditValue, AuditValueView, CreateNetworkRequest, CreateNetworkRequestView,
    CreateNetworkResponse, CreateNetworkResponseView, EnrollmentToken, EnrollmentTokenView,
    KeyPolicyResponse, KeyPolicyResponseView, KeyRotationPolicy, KeyRotationPolicyView, NetworkInfo,
    NetworkInfoView, NetworkState, NetworkStateView, NodeState, TokenState, TokenStateView,
    UpdateAclRequest, UpdateAclRequestView, UpdateAclResponse, UpdateAclResponseView,
};
use crate::net::{
    cidr4, first_offset4, first_offset6, initial_ipv4_offset, initial_ipv6_offset, ipv4_net_of,
    ipv4_nets_overlap, ipv6_net_of, ipv6_nets_overlap, overlap4, overlap6, parse_ipv4_net,
    parse_ipv6_net, ula_addr, ula_text, Ipv4Net, Ipv6Net,
};
use crate::netid::{
    blake3_of, derive_overlay_prefixes, derived_ipv4, derived_overlay_v4, derived_overlay_v6,
};
use crate::state::{
    build_audit_entry, written, AuditStamp, AuditStampView, State, StateView,
};
use crate::table::Table;
use crate::text::same_text;
use crate::tokens::{build_token, token_of};

verus! {

/// What is drawn for a new network; the last two are for its first token.
pub struct NetworkDraws {
    pub id: [u8; 16],
    pub now: i64,
    pub stamp: AuditStamp,
    pub secret: String,
    pub token_now: i64,
}

/// What [`NetworkDraws`] holds.
#[verifier::ext_equal]
pub struct NetworkDrawsView {
    pub id: Seq<u8>,
    pub now: i64,
    pub stamp: AuditStampView,
    pub secret: Seq<char>,
    pub token_now: i64,
}

impl DeepView for NetworkDraws {
    type V = NetworkDrawsView;

    open spec fn deep_view(&self) -> NetworkDrawsView {
        NetworkDrawsView {
            id: self.id@,
            now: self.now,
            stamp: self.stamp.deep_view(),
            secret: self.secret@,
            token_now: self.token_now,
        }
    }
}

impl NetworkDrawsView {
    /// Identifiers and secrets were drawn as such.
    pub open spec fn wf(self) -> bool {
        is_random_uuid(self.id) && self.stamp.wf() && is_secret(self.secret)
    }
}

/// The domain that a network gets where none is asked for.
pub open spec fn default_domain(id: Seq<u8>) -> Seq<char> {
    "net-"@ + hex_bytes(id.subrange(0, 4)) + ".lightscale"@
}

fn domain_for(id: &[u8; 16]) -> (r: String)
    ensures
        r@ == default_domain(id@),
{
    let mut out: String = "net-".to_owned();
    out.append(short_id(id).as_str());
    out.append(".lightscale");
    out
}

/// The IPv4 range of a new network: the one asked for, or the one that its identifier selects.
pub open spec fn overlay_v4_for(req: CreateNetworkRequestView, id: Seq<u8>) -> Seq<char> {
    match req.overlay_v4 {
        Some(overlay) => overlay,
        None => derived_overlay_v4(blake3_of(id)),
    }
}

/// The IPv6 range of a new network: the one asked for, or the one that its identifier selects.
pub open spec fn overlay_v6_for(req: CreateNetworkRequestView, id: Seq<u8>) -> Seq<char> {
    match req.overlay_v6 {
        Some(overlay) => overlay,
        None => derived_overlay_v6(blake3_of(id)),
    }
}

/// The network that is to be made, or why it cannot be.
pub open spec fn new_network(req: CreateNetworkRequestView, draws: NetworkDrawsView) -> Result<
    (NetworkStateView, Ipv4Net, Ipv6Net),
    ApiError,
> {
    let overlay_v4 = overlay_v4_for(req, draws.id);
    let overlay_v6 = overlay_v6_for(req, draws.id);
    match ipv4_net_of(overlay_v4) {
        None => Err(ApiError::BadRequest("invalid overlay_v4 cidr")),
        Some(v4) => match ipv6_net_of(overlay_v6) {
            None => Err(ApiError::BadRequest("invalid overlay_v6 cidr")),
            Some(v6) => match first_offset4(v4) {
                None => Err(ApiError::BadRequest("overlay_v4 must provide usable host addresses")),
                Some(next_ipv4) => Ok(
                    (
                        NetworkStateView {
                            id: hyphenated(draws.id),
                            name: req.name,
                            overlay_v4,
                            overlay_v6,
                            dns_domain: match req.dns_domain {
                                Some(domain) => domain,
                                None => default_domain(draws.id),
                            },
                            requires_approval: req.requires_approval == Some(true),
                            acl: AclPolicyView::open_to_all(),
                            key_policy: KeyRotationPolicyView {
                                max_age_seconds: req.key_rotation_max_age_seconds,
                            },
                            created_at: draws.now,
                            next_ipv4,
                            next_ipv6: first_offset6(v6),
                        },
                        v4,
                        v6,
                    ),
                ),
            },
        },
    }
}

/// Why a network with these ranges cannot stand beside the networks listed, if it cannot: the
/// first of them whose ranges cannot be read, or overlap, decides.
pub open spec fn range_conflict(
    networks: Seq<NetworkStateView>,
    v4: Ipv4Net,
    v6: Ipv6Net,
) -> Option<ApiError>
    decreases networks.len(),
{
    if networks.len() == 0 {
        None
    } else {
        match ipv4_net_of(networks[0].overlay_v4) {
            None => Some(ApiError::Internal),
            Some(other4) => if overlap4(v4, other4) {
                Some(ApiError::Conflict("overlay_v4 overlaps existing network"))
            } else {
                match ipv6_net_of(networks[0].overlay_v6) {
                    None => Some(ApiError::Internal),
                    Some(other6) => if overlap6(v6, other6) {
                        Some(ApiError::Conflict("overlay_v6 overlaps existing network"))
                    } else {
                        range_conflict(networks.drop_first(), v4, v6)
                    },
                }
            },
        }
    }
}

/// Looks for a network beside which these ranges cannot stand.
fn find_range_conflict(networks: &Table<NetworkState>, v4: &Ipv4Net, v6: &Ipv6Net) -> (r: Option<
    ApiError,
>)
    requires
        networks.wf(),
        v4.wf(),
        v6.wf(),
    ensures
        r == range_conflict(networks.deep_view().values(), *v4, *v6),
{
    let ghost all = networks.deep_view().values();
    let total: usize = networks.len();
    let mut i: usize = 0;
    assert(all.skip(0) =~= all);
    while i < total
        invariant
            networks.wf(),
            v4.wf(),
            v6.wf(),
            all == networks.deep_view().values(),
            total == all.len(),
            total == networks.deep_view().keys.len(),
            i <= total,
            range_conflict(all, *v4, *v6) == range_conflict(all.skip(i as int), *v4, *v6),
        decreases total - i,
    {
        let existing: &NetworkState = networks.value_at(i);
        assert(all.skip(i as int)[0] == existing.deep_view());
        assert(all.skip(i as int).drop_first() =~= all.skip(i + 1));
        match parse_ipv4_net(existing.overlay_v4.as_str()) {
            None => {
                return Some(ApiError::Internal);
            },
            Some(other) => if ipv4_nets_overlap(v4, &other) {
                return Some(ApiError::Conflict("overlay_v4 overlaps existing network"));
            },
        }
        match parse_ipv6_net(existing.overlay_v6.as_str()) {
            None => {
                return Some(ApiError::Internal);
            },
            Some(other) => if ipv6_nets_overlap(v6, &other) {
                return Some(ApiError::Conflict("overlay_v6 overlaps existing network"));
            },
        }
        i = i + 1;
    }
    None
}

/// What the log says of a network that was made.
pub open spec fn network_entry(network: NetworkStateView, stamp: AuditStampView) -> AuditEntryView {
    AuditEntryView::of(
        stamp,
        "network.create"@,
        Some(network.id),
        None,
        Some(
            AuditDetailView::Fields(
                seq![
                    named("name"@, AuditValueView::Text(network.name)),
                    named("requires_approval"@, AuditValueView::Bool(network.requires_approval)),
                    named(
                        "key_rotation_max_age_seconds"@,
                        uint_or_null(network.key_policy.max_age_seconds),
                    ),
                ],
            ),
        ),
    )
}

/// What the log says of a network that was made.
fn network_record(network: &NetworkState, stamp: AuditStamp) -> (r: AuditEntry)
    ensures
        r.deep_view() == network_entry(network.deep_view(), stamp.deep_view()),
{
    let fields: Vec<AuditField> = vec![
        field("name", AuditValue::Text(network.name.clone())),
        field("requires_approval", AuditValue::Bool(network.requires_approval)),
        field("key_rotation_max_age_seconds", uint_value(network.key_policy.max_age_seconds)),
    ];
    let ghost view = network.deep_view();
    assert(fields.deep_view() =~= seq![
        named("name"@, AuditValueView::Text(view.name)),
        named("requires_approval"@, AuditValueView::Bool(view.requires_approval)),
        named("key_rotation_max_age_seconds"@, uint_or_null(view.key_policy.max_age_seconds)),
    ]);
    build_audit_entry(
        stamp,
        "network.create",
        Some(network.id.clone()),
        None,
        Some(AuditDetail::Fields(fields)),
    )
}

/// The first token of a network, or why it cannot be made, where one is asked for.
pub open spec fn bootstrap_token(
    network_id: Seq<char>,
    req: CreateNetworkRequestView,
    draws: NetworkDrawsView,
) -> Option<Result<TokenStateView, ApiError>> {
    match req.bootstrap_token_ttl_seconds {
        None => None,
        Some(ttl) => Some(
            token_of(
                draws.secret,
                network_id,
                draws.token_now,
                ttl,
                match req.bootstrap_token_uses {
                    Some(uses) => uses,
                    None => 1,
                },
                match req.bootstrap_token_tags {
                    Some(tags) => tags,
                    None => Seq::empty(),
                },
                None,
                None,
                true,
            ),
        ),
    }
}

/// What becomes of the state when a network is to be made. A first token that is refused leaves
/// the network behind.
pub open spec fn network_created(
    state: StateView,
    req: CreateNetworkRequestView,
    draws: NetworkDrawsView,
) -> (StateView, Result<CreateNetworkResponseView, ApiError>) {
    match new_network(req, draws) {
        Err(refusal) => (state, Err(refusal)),
        Ok((network, v4, v6)) => if state.networks.has(network.id) {
            (state, Err(ApiError::Conflict("network already exists")))
        } else {
            match range_conflict(state.networks.values(), v4, v6) {
                Some(refusal) => (state, Err(refusal)),
                None => {
                    let made = StateView {
                        networks: state.networks.insert(network.id, network),
                        ..state
                    }.logged(network_entry(network, draws.stamp));
                    match bootstrap_token(network.id, req, draws) {
                        None => (
                            made,
                            Ok(
                                CreateNetworkResponseView {
                                    network: NetworkInfoView::of(network),
                                    bootstrap_token: None,
                                },
                            ),
                        ),
                        Some(Err(refusal)) => (made, Err(refusal)),
                        Some(Ok(token)) => (
                            StateView { tokens: made.tokens.insert(token.token, token), ..made },
                            Ok(
                                CreateNetworkResponseView {
                                    network: NetworkInfoView::of(network),
                                    bootstrap_token: Some(EnrollmentTokenView::of(token)),
                                },
                            ),
                        ),
                    }
                },
            }
        },
    }
}

/// The ranges that an identifier selects can be read as networks.
pub open spec fn default_ranges_are_networks(
    req: CreateNetworkRequestView,
    id: Seq<u8>,
) -> bool {
    let hash = blake3_of(id);
    &&& req.overlay_v4 is None ==> ipv4_net_of(overlay_v4_for(req, id)) == Some(
        Ipv4Net { addr: derived_ipv4(hash), prefix_len: 24 },
    )
    &&& req.overlay_v6 is None ==> ipv6_net_of(overlay_v6_for(req, id)) == Some(
        Ipv6Net { addr: ula_addr(hash.take(5)), prefix_len: 48 },
    )
}

/// Makes a network, given what is drawn for it.
#[verifier::rlimit(60)]
pub fn create_network_at(
    state: &mut State,
    req: &CreateNetworkRequest,
    draws: NetworkDraws,
) -> (r: Result<CreateNetworkResponse, ApiError>)
    requires
        old(state).wf(),
    ensures
        final(state).wf(),
        (final(state).deep_view(), outcome(r)) == network_created(
            old(state).deep_view(),
            req.deep_view(),
            draws.deep_view(),
        ),
        default_ranges_are_networks(req.deep_view(), draws.deep_view().id),
{
    let (default_overlay_v4, default_overlay_v6): (String, String) = derive_overlay_prefixes(
        &draws.id,
    );
    let overlay_v4: String = match &req.overlay_v4 {
        Some(overlay) => overlay.clone(),
        None => default_overlay_v4,
    };
    let overlay_v6: String = match &req.overlay_v6 {
        Some(overlay) => overlay.clone(),
        None => default_overlay_v6,
    };
    let v4: Option<Ipv4Net> = parse_ipv4_net(overlay_v4.as_str());
    let v6: Option<Ipv6Net> = parse_ipv6_net(overlay_v6.as_str());
    proof {
        let hash = blake3_of(draws.id@);
        if req.overlay_v4 is None {
            assert(overlay_v4@ == cidr4(derived_ipv4(hash), 24));
        }
        if req.overlay_v6 is None {
            assert(overlay_v6@ == ula_text(hash.take(5)));
        }
        assert(default_ranges_are_networks(req.deep_view(), draws.deep_view().id));
    }
    let v4: Ipv4Net = match v4 {
        Some(net) => net,
        None => {
            return Err(ApiError::BadRequest("invalid overlay_v4 cidr"));
        },
    };
    let v6: Ipv6Net = match v6 {
        Some(net) => net,
        None => {
            return Err(ApiError::BadRequest("invalid overlay_v6 cidr"));
        },
    };
    let next_ipv4: u32 = match initial_ipv4_offset(&v4) {
        Some(offset) => offset,
        None => {
            return Err(ApiError::BadRequest("overlay_v4 must provide usable host addresses"));
        },
    };
    let next_ipv6: u128 = initial_ipv6_offset(&v6);
    let dns_domain: String = match &req.dns_domain {
        Some(domain) => domain.clone(),
        None => domain_for(&draws.id),
    };
    let requires_approval: bool = match req.requires_approval {
        Some(value) => value,
        None => false,
    };
    let network = NetworkState {
        id: uuid_text(&draws.id),
        name: req.name.clone(),
        overlay_v4,
        overlay_v6,
        dns_domain,
        requires_approval,
        acl: AclPolicy::default(),
        key_policy: KeyRotationPolicy { max_age_seconds: req.key_rotation_max_age_seconds },
        created_at: draws.now,
        next_ipv4,
        next_ipv6,
    };
    let ghost view = network.deep_view();
    assert(new_network(req.deep_view(), draws.deep_view()) == Ok::<
        (NetworkStateView, Ipv4Net, Ipv6Net),
        ApiError,
    >((view, v4, v6)));
    if state.networks.contains_key(network.id.as_str()) {
        return Err(ApiError::Conflict("network already exists"));
    }
    if let Some(refusal) = find_range_conflict(&state.networks, &v4, &v6) {
        return Err(refusal);
    }
    let info: NetworkInfo = NetworkInfo::from_state(&network);
    let network_id: String = network.id.clone();
    let entry: AuditEntry = network_record(&network, draws.stamp);
    state.networks.insert(network_id.clone(), network);
    state.log(entry);
    match req.bootstrap_token_ttl_seconds {
        None => Ok(CreateNetworkResponse { network: info, bootstrap_token: None }),
        Some(ttl) => {
            let uses: u32 = match req.bootstrap_token_uses {
                Some(uses) => uses,
                None => 1,
            };
            let tags: Vec<String> = match &req.bootstrap_token_tags {
                Some(tags) => clone_list(tags),
                None => Vec::new(),
            };
            proof {
                if req.bootstrap_token_tags is None {
                    assert(tags.deep_view() =~= Seq::<Seq<char>>::empty());
                }
            }
            match build_token(
                draws.secret,
                draws.token_now,
                network_id.as_str(),
                ttl,
                uses,
                tags,
                &None,
                &None,
                true,
            ) {
                Err(refusal) => Err(refusal),
                Ok(token) => {
                    let told: EnrollmentToken = EnrollmentToken::from_state(&token);
                    state.tokens.insert(token.token.clone(), token);
                    Ok(CreateNetworkResponse { network: info, bootstrap_token: Some(told) })
                },
            }
        },
    }
}

/// Answers an administrator who makes a network.
pub fn create_network(
    state: &mut State,
    admin_token: &Option<String>,
    headers: &Headers,
    req: &CreateNetworkRequest,
) -> (r: Result<CreateNetworkResponse, ApiError>)
    requires
        old(state).wf(),
    ensures
        final(state).wf(),
        consistent(old(state).deep_view()) ==> consistent(final(state).deep_view()),
        !admin_allowed(headers.deep_view(), admin_token.deep_view()) ==> {
            &&& final(state).deep_view() == old(state).deep_view()
            &&& r == Err::<CreateNetworkResponse, ApiError>(
                ApiError::Unauthorized("admin token required"),
            )
        },
        admin_allowed(headers.deep_view(), admin_token.deep_view()) ==> exists|
            draws: NetworkDrawsView,
        |
            {
                &&& draws.wf()
                &&& (final(state).deep_view(), outcome(r)) == written(
                    #[trigger] network_created(old(state).deep_view(), req.deep_view(), draws),
                )
                &&& default_ranges_are_networks(req.deep_view(), draws.id)
            },
{
    if let Err(refusal) = require_admin(headers, admin_token) {
        return Err(refusal);
    }
    let draws = NetworkDraws {
        id: new_uuid(),
        now: now_unix(),
        stamp: AuditStamp::draw(),
        secret: random_secret(),
        token_now: now_unix(),
    };
    let ghost drawn = draws.deep_view();
    assert(drawn.wf());
    let result = create_network_at(state, req, draws);
    proof {
        if consistent(old(state).deep_view()) {
            law_network_created(old(state).deep_view(), req.deep_view(), drawn);
        }
    }
    match result {
        Ok(answer) => {
            state.bump();
            Ok(answer)
        },
        Err(refusal) => Err(refusal),
    }
}

/// Whether some node belongs to a network.
pub open spec fn has_nodes(state: StateView, network_id: Seq<char>) -> bool {
    exists|k: Seq<char>| #[trigger]
        state.nodes.has(k) && state.nodes.at(k).network_id == network_id
}

/// Whether some node belongs to a network.
fn any_node_in(nodes: &Table<NodeState>, network_id: &str) -> (r: bool)
    requires
        nodes.wf(),
    ensures
        r == (exists|k: Seq<char>| #[trigger]
            nodes.deep_view().has(k) && nodes.deep_view().at(k).network_id == network_id@),
{
    let ghost view = nodes.deep_view();
    let total: usize = nodes.len();
    let mut i: usize = 0;
    proof {
        nodes.lemma_wf();
    }
    while i < total
        invariant
            nodes.wf(),
            view.wf(),
            view == nodes.deep_view(),
            total == view.keys.len(),
            i <= total,
            forall|k: int|
                0 <= k < i ==> view.at(#[trigger] view.keys[k]).network_id != network_id@,
        decreases total - i,
    {
        let node: &NodeState = nodes.value_at(i);
        if same_text(node.network_id.as_str(), network_id) {
            proof {
                view.lemma_index(i as int);
                assert(view.has(view.keys[i as int]));
            }
            return true;
        }
        i = i + 1;
    }
    proof {
        assert forall|k: Seq<char>| #[trigger] view.has(k) implies view.at(k).network_id
            != network_id@ by {
            assert(view.keys.contains(k));
            assert(view.keys[view.keys.index_of(k)] == k);
        }
    }
    false
}

/// What becomes of the state when a network is to be deleted: its tokens go with it.
pub open spec fn network_deleted(
    state: StateView,
    network_id: Seq<char>,
    stamp: AuditStampView,
) -> (StateView, Result<(), ApiError>) {
    if !state.networks.has(network_id) {
        (state, Err(ApiError::NotFound("network")))
    } else if has_nodes(state, network_id) {
        (
            state,
            Err(ApiError::Conflict("network has connected nodes; revoke or delete nodes first")),
        )
    } else {
        (
            StateView {
                tokens: state.tokens.retain(
                    |token: TokenStateView| token.network_id != network_id,
                ),
                networks: state.networks.remove(network_id),
                ..state
            }.logged(
                AuditEntryView::of(stamp, "network.delete"@, Some(network_id), None, None),
            ),
            Ok(()),
        )
    }
}

/// Deletes a network, given what is drawn for the log.
pub fn delete_network_at(state: &mut State, network_id: &str, stamp: AuditStamp) -> (r: Result<
    (),
    ApiError,
>)
    requires
        old(state).wf(),
    ensures
        final(state).wf(),
        (final(state).deep_view(), r) == network_deleted(
            old(state).deep_view(),
            network_id@,
            stamp.deep_view(),
        ),
{
    if !state.networks.contains_key(network_id) {
        return Err(ApiError::NotFound("network"));
    }
    if any_node_in(&state.nodes, network_id) {
        return Err(
            ApiError::Conflict("network has connected nodes; revoke or delete nodes first"),
        );
    }
    let keep = |token: &TokenState| -> (kept: bool)
        ensures
            kept == (token.deep_view().network_id != network_id@),
        { !same_text(token.network_id.as_str(), network_id) };
    state.tokens.retain(keep, Ghost(|token: TokenStateView| token.network_id != network_id@));
    state.networks.remove(network_id);
    state.log(
        build_audit_entry(stamp, "network.delete", Some(network_id.to_owned()), None, None),
    );
    Ok(())
}

/// Answers an administrator who deletes a network.
pub fn delete_network(
    state: &mut State,
    admin_token: &Option<String>,
    headers: &Headers,
    network_id: &str,
) -> (r: Result<(), ApiError>)
    requires
        old(state).wf(),
    ensures
        final(state).wf(),
        consistent(old(state).deep_view()) ==> consistent(final(state).deep_view()),
        !admin_allowed(headers.deep_view(), admin_token.deep_view()) ==> {
            &&& final(state).deep_view() == old(state).deep_view()
            &&& r == Err::<(), ApiError>(ApiError::Unauthorized("admin token required"))
        },
        admin_allowed(headers.deep_view(), admin_token.deep_view()) ==> exists|
            stamp: AuditStampView,
        |
            stamp.wf() && (final(state).deep_view(), r) == written(
                #[trigger] network_deleted(old(state).deep_view(), network_id@, stamp),
            ),
{
    if let Err(refusal) = require_admin(headers, admin_token) {
        return Err(refusal);
    }
    let stamp: AuditStamp = AuditStamp::draw();
    let ghost drawn = stamp.deep_view();
    let result = delete_network_at(state, network_id, stamp);
    proof {
        if consistent(old(state).deep_view()) {
            law_network_deleted(old(state).deep_view(), network_id@, drawn);
        }
    }
    match result {
        Ok(()) => {
            state.bump();
            Ok(())
        },
        Err(refusal) => Err(refusal),
    }
}

/// What is told of the access rules of a network.
pub open spec fn acl_told(state: StateView, network_id: Seq<char>) -> Result<
    AclPolicyView,
    ApiError,
> {
    match state.networks.find(network_id) {
        Some(network) => Ok(network.acl),
        None => Err(ApiError::NotFound("network")),
    }
}

/// Answers an administrator who asks for the access rules of a network.
pub fn get_acl(
    state: &State,
    admin_token: &Option<String>,
    headers: &Headers,
    network_id: &str,
) -> (r: Result<AclPolicy, ApiError>)
    requires
        state.wf(),
    ensures
        outcome(r) == (if !admin_allowed(headers.deep_view(), admin_token.deep_view()) {
            Err::<AclPolicyView, ApiError>(ApiError::Unauthorized("admin token required"))
        } else {
            acl_told(state.deep_view(), network_id@)
        }),
{
    if let Err(refusal) = require_admin(headers, admin_token) {
        return Err(refusal);
    }
    match state.networks.get(network_id) {
        Some(network) => Ok(network.acl.clone()),
        None => Err(ApiError::NotFound("network")),
    }
}

/// What becomes of the state when a network is to have other access rules.
pub open spec fn acl_updated(
    state: StateView,
    network_id: Seq<char>,
    req: UpdateAclRequestView,
    stamp: AuditStampView,
) -> (StateView, Result<UpdateAclResponseView, ApiError>) {
    match state.networks.find(network_id) {
        None => (state, Err(ApiError::NotFound("network"))),
        Some(network) => (
            StateView {
                networks: state.networks.insert(
                    network_id,
                    NetworkStateView { acl: req.policy, ..network },
                ),
                ..state
            }.logged(AuditEntryView::of(stamp, "acl.update"@, Some(network.id), None, None)),
            Ok(UpdateAclResponseView { policy: req.policy }),
        ),
    }
}

/// Gives a network other access rules, given what is drawn for the log.
pub fn update_acl_at(
    state: &mut State,
    network_id: &str,
    req: &UpdateAclRequest,
    stamp: AuditStamp,
) -> (r: Result<UpdateAclResponse, ApiError>)
    requires
        old(state).wf(),
    ensures
        final(state).wf(),
        (final(state).deep_view(), outcome(r)) == acl_updated(
            old(state).deep_view(),
            network_id@,
            req.deep_view(),
            stamp.deep_view(),
        ),
{
    let id: String = match state.networks.get_mut(network_id) {
        Some(network) => {
            network.acl = req.policy.clone();
            network.id.clone()
        },
        None => {
            return Err(ApiError::NotFound("network"));
        },
    };
    state.log(build_audit_entry(stamp, "acl.update", Some(id), None, None));
    Ok(UpdateAclResponse { policy: req.policy.clone() })
}

/// Answers an administrator who gives a network other access rules.
pub fn update_acl(
    state: &mut State,
    admin_token: &Option<String>,
    headers: &Headers,
    network_id: &str,
    req: &UpdateAclRequest,
) -> (r: Result<UpdateAclResponse, ApiError>)
    requires
        old(state).wf(),
    ensures
        final(state).wf(),
        consistent(old(state).deep_view()) ==> consistent(final(state).deep_view()),
        !admin_allowed(headers.deep_view(), admin_token.deep_view()) ==> {
            &&& final(state).deep_view() == old(state).deep_view()
            &&& r == Err::<UpdateAclResponse, ApiError>(
                ApiError::Unauthorized("admin token required"),
            )
        },
        admin_allowed(headers.deep_view(), admin_token.deep_view()) ==> exists|
            stamp: AuditStampView,
        |
            stamp.wf() && (final(state).deep_view(), outcome(r)) == written(
                #[trigger] acl_updated(
                    old(state).deep_view(),
                    network_id@,
                    req.deep_view(),
                    stamp,
                ),
            ),
{
    if let Err(refusal) = require_admin(headers, admin_token) {
        return Err(refusal);
    }
    let stamp: AuditStamp = AuditStamp::draw();
    let ghost drawn = stamp.deep_view();
    let result = update_acl_at(state, network_id, req, stamp);
    proof {
        if consistent(old(state).deep_view()) {
            law_acl_updated(old(state).deep_view(), network_id@, req.deep_view(), drawn);
        }
    }
    match result {
        Ok(answer) => {
            state.bump();
            Ok(answer)
        },
        Err(refusal) => Err(refusal),
    }
}

/// What is told of the key policy of a network.
pub open spec fn key_policy_told(state: StateView, network_id: Seq<char>) -> Result<
    KeyPolicyResponseView,
    ApiError,
> {
    match state.networks.find(network_id) {
        Some(network) => Ok(KeyPolicyResponseView { policy: network.key_policy }),
        None => Err(ApiError::NotFound("network")),
    }
}

/// Answers an administrator who asks for the key policy of a network.
pub fn get_key_policy(
    state: &State,
    admin_token: &Option<String>,
    headers: &Headers,
    network_id: &str,
) -> (r: Result<KeyPolicyResponse, ApiError>)
    requires
        state.wf(),
    ensures
        outcome(r) == (if !admin_allowed(headers.deep_view(), admin_token.deep_view()) {
            Err::<KeyPolicyResponseView, ApiError>(ApiError::Unauthorized("admin token required"))
        } else {
            key_policy_told(state.deep_view(), network_id@)
        }),
{
    if let Err(refusal) = require_admin(headers, admin_token) {
        return Err(refusal);
    }
    match state.networks.get(network_id) {
        Some(network) => Ok(KeyPolicyResponse { policy: network.key_policy.clone() }),
        None => Err(ApiError::NotFound("network")),
    }
}

/// What becomes of the state when a network is to have another key policy.
pub open spec fn key_policy_updated(
    state: StateView,
    network_id: Seq<char>,
    req: KeyRotationPolicyView,
    stamp: AuditStampView,
) -> (StateView, Result<KeyPolicyResponseView, ApiError>) {
    match state.networks.find(network_id) {
        None => (state, Err(ApiError::NotFound("network"))),
        Some(network) => (
            StateView {
                networks: state.networks.insert(
                    network_id,
                    NetworkStateView { key_policy: req, ..network },
                ),
                ..state
            }.logged(
                AuditEntryView::of(
                    stamp,
                    "key_policy.update"@,
                    Some(network.id),
                    None,
                    Some(
                        AuditDetailView::Fields(
                            seq![named("max_age_seconds"@, uint_or_null(req.max_age_seconds))],
                        ),
                    ),
                ),
            ),
            Ok(KeyPolicyResponseView { policy: req }),
        ),
    }
}

/// Gives a network another key policy, given what is drawn for the log.
pub fn update_key_policy_at(
    state: &mut State,
    network_id: &str,
    req: &KeyRotationPolicy,
    stamp: AuditStamp,
) -> (r: Result<KeyPolicyResponse, ApiError>)
    requires
        old(state).wf(),
    ensures
        final(state).wf(),
        (final(state).deep_view(), outcome(r)) == key_policy_updated(
            old(state).deep_view(),
            network_id@,
            req.deep_view(),
            stamp.deep_view(),
        ),
{
    let id: String = match state.networks.get_mut(network_id) {
        Some(network) => {
            network.key_policy = req.clone();
            network.id.clone()
        },
        None => {
            return Err(ApiError::NotFound("network"));
        },
    };
    let fields: Vec<AuditField> = vec![
        field("max_age_seconds", uint_value(req.max_age_seconds)),
    ];
    assert(fields.deep_view() =~= seq![
        named("max_age_seconds"@, uint_or_null(req.max_age_seconds)),
    ]);
    state.log(
        build_audit_entry(
            stamp,
            "key_policy.update",
            Some(id),
            None,
            Some(AuditDetail::Fields(fields)),
        ),
    );
    Ok(KeyPolicyResponse { policy: req.clone() })
}

/// Answers an administrator who gives a network another key policy.
pub fn update_key_policy(
    state: &mut State,
    admin_token: &Option<String>,
    headers: &Headers,
    network_id: &str,
    req: &KeyRotationPolicy,
) -> (r: Result<KeyPolicyResponse, ApiError>)
    requires
        old(state).wf(),
    ensures
        final(state).wf(),
        consistent(old(state).deep_view()) ==> consistent(final(state).deep_view()),
        !admin_allowed(headers.deep_view(), admin_token.deep_view()) ==> {
            &&& final(state).deep_view() == old(state).deep_view()
            &&& r == Err::<KeyPolicyResponse, ApiError>(
                ApiError::Unauthorized("admin token required"),
            )
        },
        admin_allowed(headers.deep_view(), admin_token.deep_view()) ==> exists|
            stamp: AuditStampView,
        |
            stamp.wf() && (final(state).deep_view(), outcome(r)) == written(
                #[trigger] key_policy_updated(
                    old(state).deep_view(),
                    network_id@,
                    req.deep_view(),
                    stamp,
                ),
            ),
{
    if let Err(refusal) = require_admin(headers, admin_token) {
        return Err(refusal);
    }
    let stamp: AuditStamp = AuditStamp::draw();
    let ghost drawn = stamp.deep_view();
    let result = update_key_policy_at(state, network_id, req, stamp);
    proof {
        if consistent(old(state).deep_view()) {
            law_key_policy_updated(old(state).deep_view(), network_id@, req.deep_view(), drawn);
        }
    }
    match result {
        Ok(answer) => {
            state.bump();
            Ok(answer)
        },
        Err(refusal) => Err(refusal),
    }
}

} // verus!
