//! What a node learns of its network.
use vstd::prelude::*;

use crate::acl::{acl_allows, allowed};
use crate::auth::{node_allowed, require_node, Headers, HeadersView};
use crate::error::{outcome, ApiError};
use crate::ids::now_unix;
use crate::keys::{
    effective_node_status, elapsed, in_good_standing, rotation_due, seconds_since,
};
use crate::model::{
    clone_list, AclPolicy, AclPolicyView, KeyRotationPolicy, KeyRotationPolicyView, NetMap,
    NetMapView, NetworkInfo, NetworkInfoView, NetworkState, NetworkStateView, NodeInfo,
    NodeInfoView, NodeState, NodeStateView, PeerInfo, PeerInfoView, ProbeRequest, ProbeRequestView,
    RelayConfig, RelayConfigView,
};
use crate::state::{State, StateView};
use crate::table::{lemma_filter_push, lemma_filter_subset, Table, TableView};
use crate::text::same_text;

verus! {

/// How long a request to be probed stands, in seconds.
pub const PROBE_TTL_SECONDS: i64 = 30;

/// The servers that nodes are told of, if any is configured.
pub open spec fn relay_offered(relay: RelayConfigView) -> Option<RelayConfigView> {
    if relay.stun_servers.len() == 0 && relay.turn_servers.len() == 0
        && relay.stream_relay_servers.len() == 0 && relay.udp_relay_servers.len() == 0
        && relay.dns_servers.len() == 0 {
        None
    } else {
        Some(relay)
    }
}

/// The servers that nodes are told of, if any is configured.
pub fn relay_or_none(relay: &RelayConfig) -> (r: Option<RelayConfig>)
    ensures
        r.deep_view() == relay_offered(relay.deep_view()),
{
    if relay.stun_servers.len() == 0 && relay.turn_servers.len() == 0
        && relay.stream_relay_servers.len() == 0 && relay.udp_relay_servers.len() == 0
        && relay.dns_servers.len() == 0 {
        None
    } else {
        Some(relay.clone())
    }
}

/// Whether `node` is a peer of `src`: it takes part in the network, is not the one that is left
/// out, and the access rules allow traffic from `src` to it.
pub open spec fn is_peer(
    node: NodeStateView,
    network_id: Seq<char>,
    exclude_id: Option<Seq<char>>,
    src: NodeStateView,
    acl: AclPolicyView,
    policy: KeyRotationPolicyView,
    now: i64,
) -> bool {
    &&& node.network_id == network_id
    &&& in_good_standing(node, policy, now)
    &&& exclude_id != Some(node.id)
    &&& allowed(acl, src, node)
}

/// The peers of `src` among `nodes`, in their order.
pub open spec fn peers_among(
    nodes: Seq<NodeStateView>,
    network_id: Seq<char>,
    exclude_id: Option<Seq<char>>,
    src: NodeStateView,
    acl: AclPolicyView,
    policy: KeyRotationPolicyView,
    now: i64,
) -> Seq<NodeStateView> {
    nodes.filter(
        |node: NodeStateView| is_peer(node, network_id, exclude_id, src, acl, policy, now),
    )
}

/// What is told of peers.
pub open spec fn peer_infos(peers: Seq<NodeStateView>, dns_domain: Seq<char>) -> Seq<PeerInfoView> {
    Seq::new(peers.len(), |i: int| PeerInfoView::of(peers[i], dns_domain))
}

/// What is told of the peers of `src_node`.
pub fn collect_peers(
    network_id: &str,
    dns_domain: &str,
    nodes: &Table<NodeState>,
    exclude_id: Option<&str>,
    src_node: &NodeState,
    acl: &AclPolicy,
    key_policy: &KeyRotationPolicy,
    now: i64,
) -> (r: Vec<PeerInfo>)
    requires
        nodes.wf(),
    ensures
        r.deep_view() == peer_infos(
            peers_among(
                nodes.deep_view().values(),
                network_id@,
                exclude_id.deep_view(),
                src_node.deep_view(),
                acl.deep_view(),
                key_policy.deep_view(),
                now,
            ),
            dns_domain@,
        ),
{
    let ghost all = nodes.deep_view().values();
    let ghost test = |node: NodeStateView|
        is_peer(
            node,
            network_id@,
            exclude_id.deep_view(),
            src_node.deep_view(),
            acl.deep_view(),
            key_policy.deep_view(),
            now,
        );
    let mut out: Vec<PeerInfo> = Vec::new();
    let mut i: usize = 0;
    let total: usize = nodes.len();
    proof {
        assert(all.take(0).filter(test) =~= Seq::<NodeStateView>::empty()) by {
            reveal(Seq::filter);
        }
        assert(out.deep_view() =~= peer_infos(all.take(0).filter(test), dns_domain@));
    }
    while i < total
        invariant
            nodes.wf(),
            i <= total,
            total == all.len(),
            total == nodes.deep_view().keys.len(),
            all == nodes.deep_view().values(),
            test == (|node: NodeStateView|
                is_peer(
                    node,
                    network_id@,
                    exclude_id.deep_view(),
                    src_node.deep_view(),
                    acl.deep_view(),
                    key_policy.deep_view(),
                    now,
                )),
            out.deep_view() == peer_infos(all.take(i as int).filter(test), dns_domain@),
        decreases total - i,
    {
        let node: &NodeState = nodes.value_at(i);
        let ghost before = out.deep_view();
        let ghost chosen = all.take(i as int).filter(test);
        proof {
            assert(all.take(i + 1) =~= all.take(i as int).push(all[i as int]));
            lemma_filter_push(all.take(i as int), test, all[i as int]);
        }
        let (approved, _) = effective_node_status(node, key_policy, now);
        let excluded: bool = match exclude_id {
            Some(id) => same_text(node.id.as_str(), id),
            None => false,
        };
        if same_text(node.network_id.as_str(), network_id) && approved && !excluded && acl_allows(
            acl,
            src_node,
            node,
        ) {
            let info: PeerInfo = PeerInfo::from_state(node, dns_domain);
            out.push(info);
            assert(out.deep_view() =~= before.push(info.deep_view()));
            assert(peer_infos(chosen.push(all[i as int]), dns_domain@) =~= peer_infos(
                chosen,
                dns_domain@,
            ).push(PeerInfoView::of(all[i as int], dns_domain@)));
        }
        i = i + 1;
    }
    assert(all.take(i as int) =~= all);
    out
}

/// The request to be probed that a peer made, where it made one that still stands.
pub open spec fn probe_of(
    nodes: TableView<NodeStateView>,
    peer: PeerInfoView,
    now: i64,
) -> Option<ProbeRequestView> {
    if nodes.has(peer.id) {
        match nodes.at(peer.id).probe_requested_at {
            Some(requested_at) => if elapsed(now, requested_at) > PROBE_TTL_SECONDS {
                None
            } else {
                Some(
                    ProbeRequestView {
                        peer_id: peer.id,
                        endpoints: peer.endpoints,
                        ipv4: peer.ipv4,
                        ipv6: peer.ipv6,
                        requested_at,
                    },
                )
            },
            None => None,
        }
    } else {
        None
    }
}

/// The requests to be probed of all peers, in their order.
pub open spec fn probes_of(
    nodes: TableView<NodeStateView>,
    peers: Seq<PeerInfoView>,
    now: i64,
) -> Seq<ProbeRequestView>
    decreases peers.len(),
{
    if peers.len() == 0 {
        Seq::empty()
    } else {
        let rest = probes_of(nodes, peers.drop_last(), now);
        match probe_of(nodes, peers.last(), now) {
            Some(probe) => rest.push(probe),
            None => rest,
        }
    }
}

/// The requests to be probed that peers made and that still stand.
pub fn collect_probe_requests(state: &State, peers: &Vec<PeerInfo>, now: i64) -> (r: Vec<
    ProbeRequest,
>)
    requires
        state.wf(),
    ensures
        r.deep_view() == probes_of(state.deep_view().nodes, peers.deep_view(), now),
{
    let ghost all = peers.deep_view();
    let ghost nodes = state.nodes.deep_view();
    let mut out: Vec<ProbeRequest> = Vec::new();
    let mut i: usize = 0;
    assert(out.deep_view() =~= probes_of(nodes, all.take(0), now));
    while i < peers.len()
        invariant
            state.wf(),
            i <= peers@.len(),
            all == peers.deep_view(),
            nodes == state.nodes.deep_view(),
            out.deep_view() == probes_of(nodes, all.take(i as int), now),
        decreases peers.len() - i,
    {
        let peer: &PeerInfo = &peers[i];
        let ghost before = out.deep_view();
        proof {
            assert(all.take(i + 1).drop_last() =~= all.take(i as int));
            assert(all.take(i + 1).last() == peer.deep_view());
        }
        let requested: Option<i64> = match state.nodes.get(peer.id.as_str()) {
            Some(node) => node.probe_requested_at,
            None => None,
        };
        if let Some(requested_at) = requested {
            if seconds_since(now, requested_at) <= PROBE_TTL_SECONDS {
                let probe = ProbeRequest {
                    peer_id: peer.id.clone(),
                    endpoints: clone_list(&peer.endpoints),
                    ipv4: peer.ipv4.clone(),
                    ipv6: peer.ipv6.clone(),
                    requested_at,
                };
                out.push(probe);
                assert(out.deep_view() =~= before.push(probe.deep_view()));
            }
        }
        i = i + 1;
    }
    assert(all.take(i as int) =~= all);
    out
}

/// The peers that the netmap of a node lists: none where the node does not take part itself.
pub open spec fn netmap_peers(
    state: StateView,
    node_id: Seq<char>,
    node: NodeStateView,
    network: NetworkStateView,
    now: i64,
) -> Seq<NodeStateView> {
    if in_good_standing(node, network.key_policy, now) {
        peers_among(
            state.nodes.values(),
            network.id,
            Some(node_id),
            node,
            network.acl,
            network.key_policy,
            now,
        )
    } else {
        Seq::empty()
    }
}

/// What a node learns of its network at `now`.
pub open spec fn netmap_of(
    state: StateView,
    node_id: Seq<char>,
    relay: Option<RelayConfigView>,
    now: i64,
    generated_at: i64,
) -> Result<NetMapView, ApiError> {
    match state.nodes.find(node_id) {
        None => Err(ApiError::NotFound("node")),
        Some(node) => match state.networks.find(node.network_id) {
            None => Err(ApiError::NotFound("network")),
            Some(network) => {
                let peers = peer_infos(
                    netmap_peers(state, node_id, node, network, now),
                    network.dns_domain,
                );
                Ok(
                    NetMapView {
                        network: NetworkInfoView::of(network),
                        node: NodeInfoView::of(
                            node,
                            network.dns_domain,
                            in_good_standing(node, network.key_policy, now),
                            rotation_due(node, network.key_policy, now),
                        ),
                        peers,
                        relay,
                        probe_requests: probes_of(state.nodes, peers, now),
                        generated_at,
                        revision: state.revision,
                    },
                )
            },
        },
    }
}

/// What a node learns of its network at `now`.
pub fn netmap_at(
    state: &State,
    node_id: &str,
    relay: Option<RelayConfig>,
    now: i64,
    generated_at: i64,
) -> (r: Result<NetMap, ApiError>)
    requires
        state.wf(),
    ensures
        outcome(r) == netmap_of(
            state.deep_view(),
            node_id@,
            relay.deep_view(),
            now,
            generated_at,
        ),
{
    let node: &NodeState = match state.nodes.get(node_id) {
        Some(node) => node,
        None => {
            return Err(ApiError::NotFound("node"));
        },
    };
    let network: &NetworkState = match state.networks.get(node.network_id.as_str()) {
        Some(network) => network,
        None => {
            return Err(ApiError::NotFound("network"));
        },
    };
    let (approved, key_rotation_required) = effective_node_status(node, &network.key_policy, now);
    let peers: Vec<PeerInfo> = if approved {
        collect_peers(
            network.id.as_str(),
            network.dns_domain.as_str(),
            &state.nodes,
            Some(node_id),
            node,
            &network.acl,
            &network.key_policy,
            now,
        )
    } else {
        Vec::new()
    };
    proof {
        let listed = netmap_peers(
            state.deep_view(),
            node_id@,
            node.deep_view(),
            network.deep_view(),
            now,
        );
        assert(peers.deep_view() =~= peer_infos(listed, network.deep_view().dns_domain));
    }
    let probe_requests: Vec<ProbeRequest> = collect_probe_requests(state, &peers, now);
    Ok(
        NetMap {
            network: NetworkInfo::from_state(network),
            node: NodeInfo::from_state(
                node,
                network.dns_domain.as_str(),
                approved,
                key_rotation_required,
            ),
            peers,
            relay,
            probe_requests,
            generated_at,
            revision: state.revision,
        },
    )
}

/// Whether `r` is what a node learns of its network, at some time.
pub open spec fn is_netmap_of(
    r: Result<NetMapView, ApiError>,
    state: StateView,
    node_id: Seq<char>,
    relay: Option<RelayConfigView>,
) -> bool {
    exists|now: i64, generated_at: i64|
        r == #[trigger] netmap_of(state, node_id, relay, now, generated_at)
}

/// What a node learns of its network now.
pub fn build_netmap(state: &State, node_id: &str, relay: Option<RelayConfig>) -> (r: Result<
    NetMap,
    ApiError,
>)
    requires
        state.wf(),
    ensures
        is_netmap_of(outcome(r), state.deep_view(), node_id@, relay.deep_view()),
{
    let now: i64 = now_unix();
    let generated_at: i64 = now_unix();
    netmap_at(state, node_id, relay, now, generated_at)
}

/// Why a request for the netmap of a node is refused before it is looked at, if it is.
pub open spec fn netmap_refusal(
    state: StateView,
    node_id: Seq<char>,
    headers: HeadersView,
    admin_token: Option<Seq<char>>,
) -> Option<ApiError> {
    match state.nodes.find(node_id) {
        None => Some(ApiError::NotFound("node")),
        Some(node) => if node_allowed(headers, admin_token, node) {
            None
        } else {
            Some(ApiError::Unauthorized("node token required"))
        },
    }
}

/// Answers a node that asks for its netmap.
pub fn netmap(
    state: &State,
    relay: &RelayConfig,
    admin_token: &Option<String>,
    headers: &Headers,
    node_id: &str,
) -> (r: Result<NetMap, ApiError>)
    requires
        state.wf(),
    ensures
        match netmap_refusal(
            state.deep_view(),
            node_id@,
            headers.deep_view(),
            admin_token.deep_view(),
        ) {
            Some(refusal) => r == Err::<NetMap, ApiError>(refusal),
            None => is_netmap_of(
                outcome(r),
                state.deep_view(),
                node_id@,
                relay_offered(relay.deep_view()),
            ),
        },
{
    let node: &NodeState = match state.nodes.get(node_id) {
        Some(node) => node,
        None => {
            return Err(ApiError::NotFound("node"));
        },
    };
    if let Err(refusal) = require_node(headers, admin_token, node) {
        return Err(refusal);
    }
    build_netmap(state, node_id, relay_or_none(relay))
}

/// What a node that waits for news asks for.
pub struct NetmapLongpollParams {
    pub since: Option<u64>,
    pub timeout_seconds: Option<u64>,
}

/// How many seconds a node waits for news at most: as long as it asked, thirty seconds where it
/// did not say, and never more than five minutes.
pub open spec fn longpoll_limit(timeout_seconds: Option<u64>) -> u64 {
    match timeout_seconds {
        Some(seconds) => if seconds < 300 {
            seconds
        } else {
            300
        },
        None => 30,
    }
}

/// How many seconds a node waits for news at most.
pub fn longpoll_timeout(params: &NetmapLongpollParams) -> (r: u64)
    ensures
        r == longpoll_limit(params.timeout_seconds),
        r <= 300,
{
    match params.timeout_seconds {
        Some(seconds) => if seconds < 300 {
            seconds
        } else {
            300
        },
        None => 30,
    }
}

/// Whether a node that waits for news is answered: the state is newer than what the node knows,
/// or the time is up.
pub open spec fn longpoll_due(revision: u64, since: Option<u64>, deadline_passed: bool) -> bool {
    deadline_passed || revision > (match since {
        Some(since) => since,
        None => 0,
    })
}

/// Looks once whether a node that waits for news is to be answered, and with what; `None` means
/// that it goes on waiting.
pub fn netmap_longpoll(
    state: &State,
    relay: &RelayConfig,
    admin_token: &Option<String>,
    headers: &Headers,
    node_id: &str,
    params: &NetmapLongpollParams,
    deadline_passed: bool,
) -> (r: Result<Option<NetMap>, ApiError>)
    requires
        state.wf(),
    ensures
        match netmap_refusal(
            state.deep_view(),
            node_id@,
            headers.deep_view(),
            admin_token.deep_view(),
        ) {
            Some(refusal) => r == Err::<Option<NetMap>, ApiError>(refusal),
            None => exists|found: Result<NetMapView, ApiError>|
                {
                    &&& #[trigger] is_netmap_of(
                        found,
                        state.deep_view(),
                        node_id@,
                        relay_offered(relay.deep_view()),
                    )
                    &&& outcome(r) == (match found {
                        Ok(map) => Ok::<Option<NetMapView>, ApiError>(
                            if longpoll_due(state.revision, params.since, deadline_passed) {
                                Some(map)
                            } else {
                                None
                            },
                        ),
                        Err(error) => Err(error),
                    })
                },
        },
{
    match netmap(state, relay, admin_token, headers, node_id) {
        Ok(map) => {
            let since: u64 = match params.since {
                Some(since) => since,
                None => 0,
            };
            assert(is_netmap_of(
                Ok(map.deep_view()),
                state.deep_view(),
                node_id@,
                relay_offered(relay.deep_view()),
            ));
            if deadline_passed || state.revision > since {
                Ok(Some(map))
            } else {
                Ok(None)
            }
        },
        Err(error) => Err(error),
    }
}

/// The peers of a node are exactly the nodes that are in its network, take part in it, are not the
/// node itself, and that the access rules let it reach.
pub proof fn law_netmap_peers(
    state: StateView,
    node_id: Seq<char>,
    node: NodeStateView,
    network: NetworkStateView,
    now: i64,
    other: NodeStateView,
)
    ensures
        netmap_peers(state, node_id, node, network, now).contains(other) <==> {
            &&& in_good_standing(node, network.key_policy, now)
            &&& state.nodes.values().contains(other)
            &&& other.network_id == network.id
            &&& in_good_standing(other, network.key_policy, now)
            &&& other.id != node_id
            &&& allowed(network.acl, node, other)
        },
{
    broadcast use vstd::seq_lib::group_filter_ensures;

    let all = state.nodes.values();
    let test = |n: NodeStateView|
        is_peer(n, network.id, Some(node_id), node, network.acl, network.key_policy, now);
    let peers = netmap_peers(state, node_id, node, network, now);
    if in_good_standing(node, network.key_policy, now) {
        assert(peers == all.filter(test));
        if peers.contains(other) {
            lemma_filter_subset(all, test, other);
        }
        if all.contains(other) && test(other) {
            let i = all.index_of(other);
            assert(all.filter(test).contains(all[i]));
        }
    }
}

/// A node that is revoked, not approved, or has keys that are too old sees no peers, and no node
/// sees it as a peer.
pub proof fn law_outsiders_are_isolated(
    state: StateView,
    node_id: Seq<char>,
    node: NodeStateView,
    network: NetworkStateView,
    now: i64,
    outsider: NodeStateView,
)
    requires
        !outsider.approved || outsider.revoked_at is Some || rotation_due(
            outsider,
            network.key_policy,
            now,
        ),
    ensures
        !netmap_peers(state, node_id, node, network, now).contains(outsider),
        netmap_peers(state, node_id, outsider, network, now) == Seq::<NodeStateView>::empty(),
{
    law_netmap_peers(state, node_id, node, network, now, outsider);
}

/// Every request to be probed that a node is told of comes from one of the listed peers, was made
/// at most thirty seconds ago, and says what the peer says of itself.
pub proof fn law_probe_requests(
    nodes: TableView<NodeStateView>,
    peers: Seq<PeerInfoView>,
    now: i64,
    i: int,
)
    requires
        0 <= i < probes_of(nodes, peers, now).len(),
    ensures
        ({
            let probe = probes_of(nodes, peers, now)[i];
            &&& elapsed(now, probe.requested_at) <= PROBE_TTL_SECONDS
            &&& exists|k: int|
                0 <= k < peers.len() && probe_of(nodes, #[trigger] peers[k], now) == Some(probe)
        }),
    decreases peers.len(),
{
    let rest = probes_of(nodes, peers.drop_last(), now);
    let probe = probes_of(nodes, peers, now)[i];
    if i < rest.len() {
        law_probe_requests(nodes, peers.drop_last(), now, i);
        let k = choose|k: int|
            0 <= k < peers.len() - 1 && probe_of(nodes, #[trigger] peers.drop_last()[k], now)
                == Some(probe);
        assert(peers[k] == peers.drop_last()[k]);
    } else {
        assert(probe_of(nodes, peers[peers.len() - 1], now) == Some(probe));
    }
}

/// Whether an entry in a netmap shows a node as it is kept, in the domain of its network.
pub open spec fn shows_peer(shown: PeerInfoView, node: NodeStateView, dns_domain: Seq<char>) -> bool {
    &&& shown.id == node.id
    &&& shown.name == node.name
    &&& shown.dns_name == node.name + seq!['.'] + dns_domain
    &&& shown.ipv4 == node.ipv4
    &&& shown.ipv6 == node.ipv6
    &&& shown.wg_public_key == node.wg_public_key
    &&& shown.endpoints == node.endpoints
    &&& shown.tags == node.tags
    &&& shown.routes == node.routes
    &&& shown.last_seen == node.last_seen
}

/// What clients see of a node shows it as it is kept.
pub proof fn law_peer_shows_node(node: NodeStateView, dns_domain: Seq<char>)
    ensures
        shows_peer(PeerInfoView::of(node, dns_domain), node, dns_domain),
{
}

/// Every peer listed in a netmap is another node that is known in the network of the node that
/// asks, in good standing and allowed to it, and is shown as it is kept; and every such node is
/// listed if the node that asks is in good standing itself.
pub proof fn law_peers_are_shown_as_known(
    state: StateView,
    node_id: Seq<char>,
    relay: Option<RelayConfigView>,
    now: i64,
    generated_at: i64,
    shown: PeerInfoView,
)
    requires
        state.wf(),
        netmap_of(state, node_id, relay, now, generated_at) is Ok,
    ensures
        ({
            let map = netmap_of(state, node_id, relay, now, generated_at)->Ok_0;
            let node = state.nodes.at(node_id);
            let network = state.networks.at(node.network_id);
            map.peers.contains(shown) <==> in_good_standing(node, network.key_policy, now)
                && exists|k: Seq<char>|
                {
                    let other = state.nodes.at(k);
                    &&& #[trigger] state.nodes.has(k)
                    &&& other.network_id == network.id
                    &&& other.id != node_id
                    &&& in_good_standing(other, network.key_policy, now)
                    &&& allowed(network.acl, node, other)
                    &&& shows_peer(shown, other, network.dns_domain)
                }
        }),
{
    let map = netmap_of(state, node_id, relay, now, generated_at)->Ok_0;
    let node = state.nodes.at(node_id);
    let network = state.networks.at(node.network_id);
    let found = netmap_peers(state, node_id, node, network, now);
    let values = state.nodes.values();
    if map.peers.contains(shown) {
        let i = map.peers.index_of(shown);
        assert(found.contains(found[i]));
        law_netmap_peers(state, node_id, node, network, now, found[i]);
        let j = values.index_of(found[i]);
        state.nodes.lemma_index(j);
        let k = state.nodes.keys[j];
        assert(state.nodes.has(k) && state.nodes.at(k) == found[i]);
    }
    if in_good_standing(node, network.key_policy, now) && exists|k: Seq<char>|
        {
            let other = state.nodes.at(k);
            &&& #[trigger] state.nodes.has(k)
            &&& other.network_id == network.id
            &&& other.id != node_id
            &&& in_good_standing(other, network.key_policy, now)
            &&& allowed(network.acl, node, other)
            &&& shows_peer(shown, other, network.dns_domain)
        } {
        let k = choose|k: Seq<char>|
            {
                let other = state.nodes.at(k);
                &&& #[trigger] state.nodes.has(k)
                &&& other.network_id == network.id
                &&& other.id != node_id
                &&& in_good_standing(other, network.key_policy, now)
                &&& allowed(network.acl, node, other)
                &&& shows_peer(shown, other, network.dns_domain)
            };
        let other = state.nodes.at(k);
        assert(state.nodes.keys.contains(k));
        let j = state.nodes.keys.index_of(k);
        assert(values[j] == other);
        law_netmap_peers(state, node_id, node, network, now, other);
        let i = found.index_of(other);
        assert(map.peers[i] =~= shown);
    }
}

/// A netmap shows the node that asks and its network as they are kept, and says since when this
/// holds, how the servers can be reached, whether the node is in good standing and whether its keys
/// are due to be changed.
pub proof fn law_netmap_is_as_known(
    state: StateView,
    node_id: Seq<char>,
    relay: Option<RelayConfigView>,
    now: i64,
    generated_at: i64,
)
    ensures
        ({
            let answer = netmap_of(state, node_id, relay, now, generated_at);
            let node = state.nodes.at(node_id);
            let network = state.networks.at(node.network_id);
            &&& answer is Ok <==> state.nodes.has(node_id) && state.networks.has(node.network_id)
            &&& answer matches Ok(map) ==> {
                &&& map.network.id == network.id
                &&& map.network.name == network.name
                &&& map.network.overlay_v4 == network.overlay_v4
                &&& map.network.overlay_v6 == network.overlay_v6
                &&& map.network.dns_domain == network.dns_domain
                &&& map.network.requires_approval == network.requires_approval
                &&& map.network.key_rotation_max_age_seconds == network.key_policy.max_age_seconds
                &&& map.node.id == node.id
                &&& map.node.name == node.name
                &&& map.node.dns_name == node.name + seq!['.'] + network.dns_domain
                &&& map.node.ipv4 == node.ipv4
                &&& map.node.ipv6 == node.ipv6
                &&& map.node.wg_public_key == node.wg_public_key
                &&& map.node.machine_public_key == node.machine_public_key
                &&& map.node.endpoints == node.endpoints
                &&& map.node.tags == node.tags
                &&& map.node.routes == node.routes
                &&& map.node.last_seen == node.last_seen
                &&& map.node.approved == in_good_standing(node, network.key_policy, now)
                &&& map.node.key_rotation_required == rotation_due(node, network.key_policy, now)
                &&& map.node.revoked <==> node.revoked_at is Some
                &&& map.relay == relay
                &&& map.revision == state.revision
                &&& map.generated_at == generated_at
            }
            &&& !state.nodes.has(node_id) ==> answer == Err::<NetMapView, ApiError>(
                ApiError::NotFound("node"),
            )
            &&& state.nodes.has(node_id) && !state.networks.has(node.network_id) ==> answer == Err::<
                NetMapView,
                ApiError,
            >(ApiError::NotFound("network"))
        }),
{
}

/// A node is asked to probe exactly those of its peers that asked for it in the last thirty
/// seconds, at the addresses and endpoints under which they are listed.
pub proof fn law_probes_are_as_asked(
    nodes: TableView<NodeStateView>,
    peers: Seq<PeerInfoView>,
    now: i64,
    probe: ProbeRequestView,
)
    ensures
        probes_of(nodes, peers, now).contains(probe) <==> exists|i: int|
            {
                &&& 0 <= i < peers.len()
                &&& (#[trigger] peers[i]).id == probe.peer_id
                &&& peers[i].endpoints == probe.endpoints
                &&& peers[i].ipv4 == probe.ipv4
                &&& peers[i].ipv6 == probe.ipv6
                &&& nodes.has(probe.peer_id)
                &&& nodes.at(probe.peer_id).probe_requested_at == Some(probe.requested_at)
                &&& elapsed(now, probe.requested_at) <= 30
            },
    decreases peers.len(),
{
    if peers.len() > 0 {
        let rest = peers.drop_last();
        law_probes_are_as_asked(nodes, rest, now, probe);
        let some = probes_of(nodes, rest, now);
        let all = probes_of(nodes, peers, now);
        let last = peers.last();
        assert forall|i: int| 0 <= i < rest.len() implies #[trigger] rest[i] == peers[i] by {
        }
        assert forall|i: int| 0 <= i < peers.len() - 1 implies #[trigger] peers[i] == rest[i] by {
        }
        if some.contains(probe) {
            let i = some.index_of(probe);
            assert(all[i] == probe);
        }
        if let Some(found) = probe_of(nodes, last, now) {
            assert(all[all.len() - 1] == found);
            if all.contains(probe) && !some.contains(probe) {
                let i = all.index_of(probe);
                if i < some.len() {
                    assert(some[i] == probe);
                }
                assert(probe == found);
                assert(peers[peers.len() - 1] == last);
            }
        }
        if rest.len() > 0 {
            assert(peers[0] == rest[0]);
        }
        assert(peers[peers.len() - 1] == last);
    }
}

/// Nodes are told of the servers that are configured, unless there is none of any kind.
pub proof fn law_relay_offered(relay: RelayConfigView)
    ensures
        relay_offered(relay) is None <==> relay.stun_servers.len() + relay.turn_servers.len()
            + relay.stream_relay_servers.len() + relay.udp_relay_servers.len()
            + relay.dns_servers.len() == 0,
        relay_offered(relay) matches Some(told) ==> told == relay,
{
}

/// A node that waits for news waits as long as it asks for, half a minute where it does not say,
/// and five minutes at most. It is answered at once where the state has moved on since the revision
/// that it knows.
pub proof fn law_longpoll(timeout_seconds: Option<u64>, revision: u64, since: Option<u64>)
    ensures
        timeout_seconds is None ==> longpoll_limit(timeout_seconds) == 30,
        timeout_seconds matches Some(seconds) ==> (seconds <= 300 ==> longpoll_limit(
            timeout_seconds,
        ) == seconds) && (seconds > 300 ==> longpoll_limit(timeout_seconds) == 300),
        longpoll_due(revision, since, true),
        since matches Some(known) ==> (longpoll_due(revision, since, false) <==> revision > known),
        since is None ==> (longpoll_due(revision, since, false) <==> revision > 0),
{
}

} // verus!
