//! What is seen of the values that come in, are kept and go out: each field as it is.
use vstd::prelude::*;

use crate::audit::AuditQuery;
use crate::auth::Headers;
use crate::config::MeshPeer;
use crate::dns::{DnsAnswer, DnsQuery, DnsQuestion, DnsReply};
use crate::enroll::{RegisterDraws, RegisterUrlDraws};
use crate::mesh::{
    MeshEvent, MeshEventView, MeshFrame, MeshFrameView, MeshMessage, RouteHint,
};
use crate::model::{
    AclPolicy, AclRule, AclSelector, AdminNodesResponse, ApproveNodeResponse, AuditEntry,
    AuditField, AuditLogResponse, AuditValue, AuditValueView, ControlPlaneMeshPeer,
    ControlPlaneTopologyResponse, CreateNetworkRequest, CreateNetworkResponse,
    CreateTokenRequest, CreateTokenResponse, DeleteNodeResponse, EnrollmentToken,
    HeartbeatRequest, HeartbeatResponse, KeyHistoryResponse, KeyPolicyResponse, KeyRecord,
    KeyRotationPolicy, KeyRotationRequest, KeyRotationResponse, ListTokensResponse, NetMap,
    NetworkInfo, NetworkState, NodeInfo, NodeState, PeerInfo, ProbeRequest, RegisterRequest,
    RegisterResponse, RegisterUrlRequest, RegisterUrlResponse, RelayConfig, RevokeNodeResponse,
    Route, TokenState, UpdateAclRequest, UpdateAclResponse, UpdateNodeRequest,
    UpdateNodeResponse,
};
use crate::networks::NetworkDraws;
use crate::packet::{RelayPacket, RelayPacketView};
use crate::pem::{KeyDer, KeyDerView};
use crate::state::{AuditStamp, State};
use crate::stream_relay::{StreamAction, StreamActionView};
use crate::topology::MeshPeerMeta;
use crate::udp_relay::UdpAction;

verus! {

/// What is seen of [`Route`] is what it holds.
pub proof fn law_route(value: Route)
    ensures
        ({
            let shown = value.deep_view();
            &&& shown.prefix == value.prefix@
            &&& shown.kind == value.kind
            &&& shown.enabled == value.enabled
            &&& shown.mapped_prefix == value.mapped_prefix.deep_view()
        }),
{
}

/// What is seen of [`AclSelector`] is what it holds.
pub proof fn law_acl_selector(value: AclSelector)
    ensures
        ({
            let shown = value.deep_view();
            &&& shown.any == value.any
            &&& shown.tags == value.tags.deep_view()
            &&& shown.node_ids == value.node_ids.deep_view()
            &&& shown.names == value.names.deep_view()
        }),
{
}

/// What is seen of [`AclRule`] is what it holds.
pub proof fn law_acl_rule(value: AclRule)
    ensures
        ({
            let shown = value.deep_view();
            &&& shown.action == value.action
            &&& shown.src == value.src.deep_view()
            &&& shown.dst == value.dst.deep_view()
        }),
{
}

/// What is seen of [`AclPolicy`] is what it holds.
pub proof fn law_acl_policy(value: AclPolicy)
    ensures
        ({
            let shown = value.deep_view();
            &&& shown.default_action == value.default_action
            &&& shown.rules == value.rules.deep_view()
        }),
{
}

/// What is seen of [`KeyRotationPolicy`] is what it holds.
pub proof fn law_key_rotation_policy(value: KeyRotationPolicy)
    ensures
        ({
            let shown = value.deep_view();
            &&& shown.max_age_seconds == value.max_age_seconds
        }),
{
}

/// What is seen of [`KeyRecord`] is what it holds.
pub proof fn law_key_record(value: KeyRecord)
    ensures
        ({
            let shown = value.deep_view();
            &&& shown.key_type == value.key_type
            &&& shown.public_key == value.public_key@
            &&& shown.created_at == value.created_at
            &&& shown.revoked_at == value.revoked_at
        }),
{
}

/// What is seen of [`NetworkState`] is what it holds.
pub proof fn law_network_state(value: NetworkState)
    ensures
        ({
            let shown = value.deep_view();
            &&& shown.id == value.id@
            &&& shown.name == value.name@
            &&& shown.overlay_v4 == value.overlay_v4@
            &&& shown.overlay_v6 == value.overlay_v6@
            &&& shown.dns_domain == value.dns_domain@
            &&& shown.requires_approval == value.requires_approval
            &&& shown.acl == value.acl.deep_view()
            &&& shown.key_policy == value.key_policy.deep_view()
            &&& shown.created_at == value.created_at
            &&& shown.next_ipv4 == value.next_ipv4
            &&& shown.next_ipv6 == value.next_ipv6
        }),
{
}

/// What is seen of [`NodeState`] is what it holds.
pub proof fn law_node_state(value: NodeState)
    ensures
        ({
            let shown = value.deep_view();
            &&& shown.id == value.id@
            &&& shown.network_id == value.network_id@
            &&& shown.name == value.name@
            &&& shown.machine_public_key == value.machine_public_key@
            &&& shown.wg_public_key == value.wg_public_key@
            &&& shown.ipv4 == value.ipv4@
            &&& shown.ipv6 == value.ipv6@
            &&& shown.endpoints == value.endpoints.deep_view()
            &&& shown.tags == value.tags.deep_view()
            &&& shown.owner_user_id == value.owner_user_id.deep_view()
            &&& shown.owner_email == value.owner_email.deep_view()
            &&& shown.owner_is_admin == value.owner_is_admin
            &&& shown.routes == value.routes.deep_view()
            &&& shown.created_at == value.created_at
            &&& shown.last_seen == value.last_seen
            &&& shown.probe_requested_at == value.probe_requested_at
            &&& shown.approved == value.approved
            &&& shown.approved_at == value.approved_at
            &&& shown.auth_secret == value.auth_secret.deep_view()
            &&& shown.auth_expires_at == value.auth_expires_at
            &&& shown.node_token == value.node_token.deep_view()
            &&& shown.revoked_at == value.revoked_at
            &&& shown.key_history == value.key_history.deep_view()
        }),
{
}

/// What is seen of [`TokenState`] is what it holds.
pub proof fn law_token_state(value: TokenState)
    ensures
        ({
            let shown = value.deep_view();
            &&& shown.token == value.token@
            &&& shown.network_id == value.network_id@
            &&& shown.expires_at == value.expires_at
            &&& shown.uses_left == value.uses_left
            &&& shown.tags == value.tags.deep_view()
            &&& shown.owner_user_id == value.owner_user_id.deep_view()
            &&& shown.owner_email == value.owner_email.deep_view()
            &&& shown.owner_is_admin == value.owner_is_admin
            &&& shown.revoked_at == value.revoked_at
        }),
{
}

/// What is seen of [`AuditField`] is what it holds.
pub proof fn law_audit_field(value: AuditField)
    ensures
        ({
            let shown = value.deep_view();
            &&& shown.name == value.name@
            &&& shown.value == value.value.deep_view()
        }),
{
}

/// What is seen of [`AuditEntry`] is what it holds.
pub proof fn law_audit_entry(value: AuditEntry)
    ensures
        ({
            let shown = value.deep_view();
            &&& shown.id == value.id@
            &&& shown.timestamp == value.timestamp
            &&& shown.network_id == value.network_id.deep_view()
            &&& shown.node_id == value.node_id.deep_view()
            &&& shown.action == value.action@
            &&& shown.detail == value.detail.deep_view()
        }),
{
}

/// What is seen of [`NetworkInfo`] is what it holds.
pub proof fn law_network_info(value: NetworkInfo)
    ensures
        ({
            let shown = value.deep_view();
            &&& shown.id == value.id@
            &&& shown.name == value.name@
            &&& shown.overlay_v4 == value.overlay_v4@
            &&& shown.overlay_v6 == value.overlay_v6@
            &&& shown.dns_domain == value.dns_domain@
            &&& shown.requires_approval == value.requires_approval
            &&& shown.key_rotation_max_age_seconds == value.key_rotation_max_age_seconds
        }),
{
}

/// What is seen of [`NodeInfo`] is what it holds.
pub proof fn law_node_info(value: NodeInfo)
    ensures
        ({
            let shown = value.deep_view();
            &&& shown.id == value.id@
            &&& shown.name == value.name@
            &&& shown.dns_name == value.dns_name@
            &&& shown.ipv4 == value.ipv4@
            &&& shown.ipv6 == value.ipv6@
            &&& shown.wg_public_key == value.wg_public_key@
            &&& shown.machine_public_key == value.machine_public_key@
            &&& shown.endpoints == value.endpoints.deep_view()
            &&& shown.tags == value.tags.deep_view()
            &&& shown.routes == value.routes.deep_view()
            &&& shown.last_seen == value.last_seen
            &&& shown.approved == value.approved
            &&& shown.key_rotation_required == value.key_rotation_required
            &&& shown.revoked == value.revoked
        }),
{
}

/// What is seen of [`PeerInfo`] is what it holds.
pub proof fn law_peer_info(value: PeerInfo)
    ensures
        ({
            let shown = value.deep_view();
            &&& shown.id == value.id@
            &&& shown.name == value.name@
            &&& shown.dns_name == value.dns_name@
            &&& shown.ipv4 == value.ipv4@
            &&& shown.ipv6 == value.ipv6@
            &&& shown.wg_public_key == value.wg_public_key@
            &&& shown.endpoints == value.endpoints.deep_view()
            &&& shown.tags == value.tags.deep_view()
            &&& shown.routes == value.routes.deep_view()
            &&& shown.last_seen == value.last_seen
        }),
{
}

/// What is seen of [`RelayConfig`] is what it holds.
pub proof fn law_relay_config(value: RelayConfig)
    ensures
        ({
            let shown = value.deep_view();
            &&& shown.stun_servers == value.stun_servers.deep_view()
            &&& shown.turn_servers == value.turn_servers.deep_view()
            &&& shown.stream_relay_servers == value.stream_relay_servers.deep_view()
            &&& shown.udp_relay_servers == value.udp_relay_servers.deep_view()
            &&& shown.dns_servers == value.dns_servers.deep_view()
        }),
{
}

/// What is seen of [`ProbeRequest`] is what it holds.
pub proof fn law_probe_request(value: ProbeRequest)
    ensures
        ({
            let shown = value.deep_view();
            &&& shown.peer_id == value.peer_id@
            &&& shown.endpoints == value.endpoints.deep_view()
            &&& shown.ipv4 == value.ipv4@
            &&& shown.ipv6 == value.ipv6@
            &&& shown.requested_at == value.requested_at
        }),
{
}

/// What is seen of [`NetMap`] is what it holds.
pub proof fn law_net_map(value: NetMap)
    ensures
        ({
            let shown = value.deep_view();
            &&& shown.network == value.network.deep_view()
            &&& shown.node == value.node.deep_view()
            &&& shown.peers == value.peers.deep_view()
            &&& shown.relay == value.relay.deep_view()
            &&& shown.probe_requests == value.probe_requests.deep_view()
            &&& shown.generated_at == value.generated_at
            &&& shown.revision == value.revision
        }),
{
}

/// What is seen of [`EnrollmentToken`] is what it holds.
pub proof fn law_enrollment_token(value: EnrollmentToken)
    ensures
        ({
            let shown = value.deep_view();
            &&& shown.token == value.token@
            &&& shown.expires_at == value.expires_at
            &&& shown.uses_left == value.uses_left
            &&& shown.tags == value.tags.deep_view()
            &&& shown.revoked_at == value.revoked_at
        }),
{
}

/// What is seen of [`CreateNetworkRequest`] is what it holds.
pub proof fn law_create_network_request(value: CreateNetworkRequest)
    ensures
        ({
            let shown = value.deep_view();
            &&& shown.name == value.name@
            &&& shown.overlay_v4 == value.overlay_v4.deep_view()
            &&& shown.overlay_v6 == value.overlay_v6.deep_view()
            &&& shown.dns_domain == value.dns_domain.deep_view()
            &&& shown.requires_approval == value.requires_approval
            &&& shown.key_rotation_max_age_seconds == value.key_rotation_max_age_seconds
            &&& shown.bootstrap_token_ttl_seconds == value.bootstrap_token_ttl_seconds
            &&& shown.bootstrap_token_uses == value.bootstrap_token_uses
            &&& shown.bootstrap_token_tags == value.bootstrap_token_tags.deep_view()
        }),
{
}

/// What is seen of [`CreateNetworkResponse`] is what it holds.
pub proof fn law_create_network_response(value: CreateNetworkResponse)
    ensures
        ({
            let shown = value.deep_view();
            &&& shown.network == value.network.deep_view()
            &&& shown.bootstrap_token == value.bootstrap_token.deep_view()
        }),
{
}

/// What is seen of [`CreateTokenRequest`] is what it holds.
pub proof fn law_create_token_request(value: CreateTokenRequest)
    ensures
        ({
            let shown = value.deep_view();
            &&& shown.ttl_seconds == value.ttl_seconds
            &&& shown.uses == value.uses
            &&& shown.tags == value.tags.deep_view()
            &&& shown.owner_user_id == value.owner_user_id.deep_view()
            &&& shown.owner_email == value.owner_email.deep_view()
            &&& shown.owner_is_admin == value.owner_is_admin
        }),
{
}

/// What is seen of [`CreateTokenResponse`] is what it holds.
pub proof fn law_create_token_response(value: CreateTokenResponse)
    ensures
        ({
            let shown = value.deep_view();
            &&& shown.token == value.token.deep_view()
        }),
{
}

/// What is seen of [`ListTokensResponse`] is what it holds.
pub proof fn law_list_tokens_response(value: ListTokensResponse)
    ensures
        ({
            let shown = value.deep_view();
            &&& shown.tokens == value.tokens.deep_view()
        }),
{
}

/// What is seen of [`AdminNodesResponse`] is what it holds.
pub proof fn law_admin_nodes_response(value: AdminNodesResponse)
    ensures
        ({
            let shown = value.deep_view();
            &&& shown.nodes == value.nodes.deep_view()
        }),
{
}

/// What is seen of [`UpdateAclRequest`] is what it holds.
pub proof fn law_update_acl_request(value: UpdateAclRequest)
    ensures
        ({
            let shown = value.deep_view();
            &&& shown.policy == value.policy.deep_view()
        }),
{
}

/// What is seen of [`UpdateAclResponse`] is what it holds.
pub proof fn law_update_acl_response(value: UpdateAclResponse)
    ensures
        ({
            let shown = value.deep_view();
            &&& shown.policy == value.policy.deep_view()
        }),
{
}

/// What is seen of [`UpdateNodeRequest`] is what it holds.
pub proof fn law_update_node_request(value: UpdateNodeRequest)
    ensures
        ({
            let shown = value.deep_view();
            &&& shown.name == value.name.deep_view()
            &&& shown.tags == value.tags.deep_view()
        }),
{
}

/// What is seen of [`UpdateNodeResponse`] is what it holds.
pub proof fn law_update_node_response(value: UpdateNodeResponse)
    ensures
        ({
            let shown = value.deep_view();
            &&& shown.node == value.node.deep_view()
        }),
{
}

/// What is seen of [`KeyPolicyResponse`] is what it holds.
pub proof fn law_key_policy_response(value: KeyPolicyResponse)
    ensures
        ({
            let shown = value.deep_view();
            &&& shown.policy == value.policy.deep_view()
        }),
{
}

/// What is seen of [`KeyRotationRequest`] is what it holds.
pub proof fn law_key_rotation_request(value: KeyRotationRequest)
    ensures
        ({
            let shown = value.deep_view();
            &&& shown.machine_public_key == value.machine_public_key.deep_view()
            &&& shown.wg_public_key == value.wg_public_key.deep_view()
        }),
{
}

/// What is seen of [`KeyRotationResponse`] is what it holds.
pub proof fn law_key_rotation_response(value: KeyRotationResponse)
    ensures
        ({
            let shown = value.deep_view();
            &&& shown.node_id == value.node_id@
            &&& shown.machine_public_key == value.machine_public_key@
            &&& shown.wg_public_key == value.wg_public_key@
        }),
{
}

/// What is seen of [`KeyHistoryResponse`] is what it holds.
pub proof fn law_key_history_response(value: KeyHistoryResponse)
    ensures
        ({
            let shown = value.deep_view();
            &&& shown.node_id == value.node_id@
            &&& shown.keys == value.keys.deep_view()
        }),
{
}

/// What is seen of [`AuditLogResponse`] is what it holds.
pub proof fn law_audit_log_response(value: AuditLogResponse)
    ensures
        ({
            let shown = value.deep_view();
            &&& shown.entries == value.entries.deep_view()
        }),
{
}

/// What is seen of [`RegisterRequest`] is what it holds.
pub proof fn law_register_request(value: RegisterRequest)
    ensures
        ({
            let shown = value.deep_view();
            &&& shown.token == value.token@
            &&& shown.node_name == value.node_name@
            &&& shown.machine_public_key == value.machine_public_key@
            &&& shown.wg_public_key == value.wg_public_key@
        }),
{
}

/// What is seen of [`RegisterResponse`] is what it holds.
pub proof fn law_register_response(value: RegisterResponse)
    ensures
        ({
            let shown = value.deep_view();
            &&& shown.node_token == value.node_token@
            &&& shown.netmap == value.netmap.deep_view()
        }),
{
}

/// What is seen of [`RegisterUrlRequest`] is what it holds.
pub proof fn law_register_url_request(value: RegisterUrlRequest)
    ensures
        ({
            let shown = value.deep_view();
            &&& shown.network_id == value.network_id@
            &&& shown.node_name == value.node_name@
            &&& shown.machine_public_key == value.machine_public_key@
            &&& shown.wg_public_key == value.wg_public_key@
            &&& shown.ttl_seconds == value.ttl_seconds
        }),
{
}

/// What is seen of [`RegisterUrlResponse`] is what it holds.
pub proof fn law_register_url_response(value: RegisterUrlResponse)
    ensures
        ({
            let shown = value.deep_view();
            &&& shown.node_id == value.node_id@
            &&& shown.network_id == value.network_id@
            &&& shown.ipv4 == value.ipv4@
            &&& shown.ipv6 == value.ipv6@
            &&& shown.auth_path == value.auth_path@
            &&& shown.expires_at == value.expires_at
            &&& shown.node_token == value.node_token@
        }),
{
}

/// What is seen of [`HeartbeatRequest`] is what it holds.
pub proof fn law_heartbeat_request(value: HeartbeatRequest)
    ensures
        ({
            let shown = value.deep_view();
            &&& shown.node_id == value.node_id@
            &&& shown.endpoints == value.endpoints.deep_view()
            &&& shown.listen_port == value.listen_port
            &&& shown.routes == value.routes.deep_view()
            &&& shown.probe == value.probe
        }),
{
}

/// What is seen of [`HeartbeatResponse`] is what it holds.
pub proof fn law_heartbeat_response(value: HeartbeatResponse)
    ensures
        ({
            let shown = value.deep_view();
            &&& shown.netmap == value.netmap.deep_view()
        }),
{
}

/// What is seen of [`DeleteNodeResponse`] is what it holds.
pub proof fn law_delete_node_response(value: DeleteNodeResponse)
    ensures
        ({
            let shown = value.deep_view();
            &&& shown.node_id == value.node_id@
        }),
{
}

/// What is seen of [`ApproveNodeResponse`] is what it holds.
pub proof fn law_approve_node_response(value: ApproveNodeResponse)
    ensures
        ({
            let shown = value.deep_view();
            &&& shown.node_id == value.node_id@
            &&& shown.approved == value.approved
            &&& shown.approved_at == value.approved_at
        }),
{
}

/// What is seen of [`RevokeNodeResponse`] is what it holds.
pub proof fn law_revoke_node_response(value: RevokeNodeResponse)
    ensures
        ({
            let shown = value.deep_view();
            &&& shown.node_id == value.node_id@
            &&& shown.revoked_at == value.revoked_at
        }),
{
}

/// What is seen of [`ControlPlaneMeshPeer`] is what it holds.
pub proof fn law_control_plane_mesh_peer(value: ControlPlaneMeshPeer)
    ensures
        ({
            let shown = value.deep_view();
            &&& shown.id == value.id@
            &&& shown.addr == value.addr@
        }),
{
}

/// What is seen of [`ControlPlaneTopologyResponse`] is what it holds.
pub proof fn law_control_plane_topology_response(value: ControlPlaneTopologyResponse)
    ensures
        ({
            let shown = value.deep_view();
            &&& shown.control_urls == value.control_urls.deep_view()
            &&& shown.mesh_server_id == value.mesh_server_id.deep_view()
            &&& shown.mesh_peers == value.mesh_peers.deep_view()
            &&& shown.generated_at == value.generated_at
        }),
{
}

/// What is seen of [`Headers`] is what it holds.
pub proof fn law_headers(value: Headers)
    ensures
        ({
            let shown = value.deep_view();
            &&& shown.authorization == value.authorization.deep_view()
            &&& shown.forwarded_host == value.forwarded_host.deep_view()
            &&& shown.forwarded_proto == value.forwarded_proto.deep_view()
            &&& shown.host == value.host.deep_view()
        }),
{
}

/// What is seen of [`AuditQuery`] is what it holds.
pub proof fn law_audit_query(value: AuditQuery)
    ensures
        ({
            let shown = value.deep_view();
            &&& shown.network_id == value.network_id.deep_view()
            &&& shown.node_id == value.node_id.deep_view()
            &&& shown.limit == value.limit
        }),
{
}

/// What is seen of [`MeshPeer`] is what it holds.
pub proof fn law_mesh_peer(value: MeshPeer)
    ensures
        ({
            let shown = value.deep_view();
            &&& shown.id == value.id@
            &&& shown.addr == value.addr@
        }),
{
}

/// What is seen of [`DnsQuestion`] is what it holds.
pub proof fn law_dns_question(value: DnsQuestion)
    ensures
        ({
            let shown = value.deep_view();
            &&& shown.name == value.name@
            &&& shown.record_type == value.record_type
        }),
{
}

/// What is seen of [`DnsQuery`] is what it holds.
pub proof fn law_dns_query(value: DnsQuery)
    ensures
        ({
            let shown = value.deep_view();
            &&& shown.id == value.id
            &&& shown.op_code == value.op_code
            &&& shown.recursion_desired == value.recursion_desired
            &&& shown.questions == value.questions.deep_view()
        }),
{
}

/// What is seen of [`DnsAnswer`] is what it holds.
pub proof fn law_dns_answer(value: DnsAnswer)
    ensures
        ({
            let shown = value.deep_view();
            &&& shown.question == value.question
            &&& shown.ttl == value.ttl
            &&& shown.address == value.address.deep_view()
        }),
{
}

/// What is seen of [`DnsReply`] is what it holds.
pub proof fn law_dns_reply(value: DnsReply)
    ensures
        ({
            let shown = value.deep_view();
            &&& shown.id == value.id
            &&& shown.op_code == value.op_code
            &&& shown.recursion_desired == value.recursion_desired
            &&& shown.recursion_available == value.recursion_available
            &&& shown.authoritative == value.authoritative
            &&& shown.code == value.code
            &&& shown.answers == value.answers.deep_view()
        }),
{
}

/// What is seen of [`RegisterDraws`] is what it holds.
pub proof fn law_register_draws(value: RegisterDraws)
    ensures
        ({
            let shown = value.deep_view();
            &&& shown.now == value.now
            &&& shown.node_id == value.node_id@
            &&& shown.node_token == value.node_token@
            &&& shown.stamp == value.stamp.deep_view()
        }),
{
}

/// What is seen of [`RegisterUrlDraws`] is what it holds.
pub proof fn law_register_url_draws(value: RegisterUrlDraws)
    ensures
        ({
            let shown = value.deep_view();
            &&& shown.now == value.now
            &&& shown.node_id == value.node_id@
            &&& shown.node_token == value.node_token@
            &&& shown.auth_secret == value.auth_secret@
            &&& shown.stamp == value.stamp.deep_view()
        }),
{
}

/// What is seen of [`MeshMessage`] is what it holds.
pub proof fn law_mesh_message(value: MeshMessage)
    ensures
        ({
            let shown = value.deep_view();
            &&& shown.message_id == value.message_id@
            &&& shown.transport == value.transport
            &&& shown.from_id == value.from_id@
            &&& shown.to_id == value.to_id@
            &&& shown.payload == value.payload.deep_view()
            &&& shown.hops_left == value.hops_left
        }),
{
}

/// What is seen of [`RouteHint`] is what it holds.
pub proof fn law_route_hint(value: RouteHint)
    ensures
        ({
            let shown = value.deep_view();
            &&& shown.peer_id == value.peer_id@
            &&& shown.updated_at == value.updated_at
        }),
{
}

/// What is seen of [`NetworkDraws`] is what it holds.
pub proof fn law_network_draws(value: NetworkDraws)
    ensures
        ({
            let shown = value.deep_view();
            &&& shown.id == value.id@
            &&& shown.now == value.now
            &&& shown.stamp == value.stamp.deep_view()
            &&& shown.secret == value.secret@
            &&& shown.token_now == value.token_now
        }),
{
}

/// What is seen of [`State`] is what it holds.
pub proof fn law_state(value: State)
    ensures
        ({
            let shown = value.deep_view();
            &&& shown.version == value.version
            &&& shown.revision == value.revision
            &&& shown.networks == value.networks.deep_view()
            &&& shown.nodes == value.nodes.deep_view()
            &&& shown.tokens == value.tokens.deep_view()
            &&& shown.audit_log == value.audit_log.deep_view()
        }),
{
}

/// What is seen of [`AuditStamp`] is what it holds.
pub proof fn law_audit_stamp(value: AuditStamp)
    ensures
        ({
            let shown = value.deep_view();
            &&& shown.id == value.id@
            &&& shown.timestamp == value.timestamp
        }),
{
}

/// What is seen of [`MeshPeerMeta`] is what it holds.
pub proof fn law_mesh_peer_meta(value: MeshPeerMeta)
    ensures
        ({
            let shown = value.deep_view();
            &&& shown.id == value.id@
            &&& shown.addr == value.addr@
        }),
{
}

/// What is seen of [`MeshFrame`] is what it holds.
pub proof fn law_mesh_frame(value: MeshFrame)
    ensures
        value matches MeshFrame::Hello { server_id } ==> value.deep_view() == (
        MeshFrameView::Hello { server_id: server_id@ }),
        value matches MeshFrame::Relay {
            message_id,
            transport,
            from_id,
            to_id,
            payload_b64,
            hops_left,
        } ==> value.deep_view() == (MeshFrameView::Relay {
            message_id: message_id@,
            transport,
            from_id: from_id@,
            to_id: to_id@,
            payload_b64: payload_b64@,
            hops_left,
        }),
{
}

/// What is seen of [`RelayPacket`] is what it holds.
pub proof fn law_relay_packet(value: RelayPacket)
    ensures
        value matches RelayPacket::Register { node_id } ==> value.deep_view() == (
        RelayPacketView::Register { node_id: node_id@ }),
        value matches RelayPacket::Send { from_id, to_id, payload } ==> value.deep_view() == (
        RelayPacketView::Send { from_id: from_id@, to_id: to_id@, payload: payload@ }),
{
}

/// What is seen of [`StreamAction`] is what it holds.
pub proof fn law_stream_action(value: StreamAction)
    ensures
        value is Registered <==> value.deep_view() is Registered,
        value is Invalid <==> value.deep_view() is Invalid,
        value is Unexpected <==> value.deep_view() is Unexpected,
        value matches StreamAction::Spoofed { from_id } ==> value.deep_view() == (
        StreamActionView::Spoofed { from_id: from_id@ }),
        value matches StreamAction::Deliver { conns, packet } ==> value.deep_view() == (
        StreamActionView::Deliver { conns: conns@, packet: packet@ }),
        value matches StreamAction::Forward { from_id, to_id, payload } ==> value.deep_view() == (
        StreamActionView::Forward { from_id: from_id@, to_id: to_id@, payload: payload@ }),
{
}

/// What is seen of [`KeyDer`] is what it holds.
pub proof fn law_key_der(value: KeyDer)
    ensures
        value matches KeyDer::Pkcs8(der) ==> value.deep_view() == KeyDerView::Pkcs8(der@),
        value matches KeyDer::Pkcs1(der) ==> value.deep_view() == KeyDerView::Pkcs1(der@),
        value matches KeyDer::Sec1(der) ==> value.deep_view() == KeyDerView::Sec1(der@),
{
}

/// What is seen of [`MeshEvent`] is what it holds.
pub proof fn law_mesh_event(value: MeshEvent)
    ensures
        value is Connected <==> value.deep_view() is Connected,
        value is Handled <==> value.deep_view() is Handled,
        value matches MeshEvent::Deliver(message) ==> value.deep_view() == MeshEventView::Deliver(
            message.deep_view(),
        ),
        value matches MeshEvent::Dropped(error) ==> value.deep_view() == MeshEventView::Dropped(
            error.deep_view(),
        ),
{
}

/// What is seen of [`AuditValue`] is what it holds.
pub proof fn law_audit_value(value: AuditValue)
    ensures
        value is Null <==> value.deep_view() is Null,
        value matches AuditValue::Bool(b) ==> value.deep_view() == AuditValueView::Bool(b),
        value matches AuditValue::Int(n) ==> value.deep_view() == AuditValueView::Int(n),
        value matches AuditValue::UInt(n) ==> value.deep_view() == AuditValueView::UInt(n),
        value matches AuditValue::Text(s) ==> value.deep_view() == AuditValueView::Text(s@),
        value matches AuditValue::TextList(v) ==> value.deep_view() == AuditValueView::TextList(
            v.deep_view(),
        ),
        value matches AuditValue::Raw(s) ==> value.deep_view() == AuditValueView::Raw(s@),
{
}

/// What is seen of [`UdpAction`] is what it holds.
pub proof fn law_udp_action<A: Copy>(value: UdpAction<A>)
    ensures
        value is Invalid <==> value.shown() is Invalid,
        value is Registered <==> value.shown() is Registered,
        value matches UdpAction::Send { target, from_id, to_id, payload } ==> {
            &&& value.shown() is Send
            &&& value.shown()->Send_from_id == from_id@
            &&& value.shown()->Send_to_id == to_id@
            &&& value.shown()->Send_payload == payload@
            &&& target is None ==> value.shown()->Send_target is None
            &&& target matches Some((addr, packet)) ==> value.shown()->Send_target == Some(
                (addr, packet@),
            )
        },
{
}

} // verus!
