//! The data of the control plane: networks, nodes, tokens, and what is asked and answered.
//!
//! Each type has a mathematical counterpart, its name followed by `View`, over which the contracts
//! speak.
use vstd::prelude::*;

verus! {

/// Copies a list item by item.
pub(crate) fn clone_list<T: DeepView + Clone>(list: &Vec<T>) -> (r: Vec<T>)
    requires
        forall|a: T, b: T| #[trigger] cloned::<T>(a, b) ==> a.deep_view() == b.deep_view(),
    ensures
        r.deep_view() == list.deep_view(),
{
    let r: Vec<T> = list.clone();
    assert(r.deep_view() =~= list.deep_view());
    r
}

/// What a route leads to.
#[derive(Clone, Copy, PartialEq, Eq, Structural)]
pub enum RouteKind {
    Subnet,
    Exit,
}

impl DeepView for RouteKind {
    type V = RouteKind;

    open spec fn deep_view(&self) -> RouteKind {
        *self
    }
}

/// What a rule does to traffic.
#[derive(Clone, Copy, PartialEq, Eq, Structural)]
pub enum AclAction {
    Allow,
    Deny,
}

impl DeepView for AclAction {
    type V = AclAction;

    open spec fn deep_view(&self) -> AclAction {
        *self
    }
}

impl Default for AclAction {
    fn default() -> (r: Self)
        ensures
            r == AclAction::Allow,
    {
        AclAction::Allow
    }
}

/// What a key is for.
#[derive(Clone, Copy, PartialEq, Eq, Structural)]
pub enum KeyType {
    Machine,
    WireGuard,
}

impl DeepView for KeyType {
    type V = KeyType;

    open spec fn deep_view(&self) -> KeyType {
        *self
    }
}

/// A value in an audit entry. `Raw` holds the JSON text of a value of another shape.
pub enum AuditValue {
    Null,
    Bool(bool),
    Int(i64),
    UInt(u64),
    Text(String),
    TextList(Vec<String>),
    Raw(String),
}

/// What [`AuditValue`] holds.
#[verifier::ext_equal]
pub enum AuditValueView {
    Null,
    Bool(bool),
    Int(i64),
    UInt(u64),
    Text(Seq<char>),
    TextList(Seq<Seq<char>>),
    Raw(Seq<char>),
}

impl DeepView for AuditValue {
    type V = AuditValueView;

    open spec fn deep_view(&self) -> AuditValueView {
        match self {
            AuditValue::Null => AuditValueView::Null,
            AuditValue::Bool(b) => AuditValueView::Bool(*b),
            AuditValue::Int(n) => AuditValueView::Int(*n),
            AuditValue::UInt(n) => AuditValueView::UInt(*n),
            AuditValue::Text(s) => AuditValueView::Text(s.deep_view()),
            AuditValue::TextList(v) => AuditValueView::TextList(v.deep_view()),
            AuditValue::Raw(s) => AuditValueView::Raw(s.deep_view()),
        }
    }
}

impl Clone for AuditValue {
    fn clone(&self) -> (r: Self)
        ensures
            r.deep_view() == self.deep_view(),
    {
        match self {
            AuditValue::Null => AuditValue::Null,
            AuditValue::Bool(b) => AuditValue::Bool(*b),
            AuditValue::Int(n) => AuditValue::Int(*n),
            AuditValue::UInt(n) => AuditValue::UInt(*n),
            AuditValue::Text(s) => AuditValue::Text(s.clone()),
            AuditValue::TextList(v) => AuditValue::TextList(clone_list(v)),
            AuditValue::Raw(s) => AuditValue::Raw(s.clone()),
        }
    }
}

/// What an audit entry says beyond its action. `Raw` holds the JSON text of a detail that is no
/// object.
pub enum AuditDetail {
    Fields(Vec<AuditField>),
    Raw(String),
}

/// What [`AuditDetail`] holds.
#[verifier::ext_equal]
pub enum AuditDetailView {
    Fields(Seq<AuditFieldView>),
    Raw(Seq<char>),
}

impl DeepView for AuditDetail {
    type V = AuditDetailView;

    open spec fn deep_view(&self) -> AuditDetailView {
        match self {
            AuditDetail::Fields(v) => AuditDetailView::Fields(v.deep_view()),
            AuditDetail::Raw(s) => AuditDetailView::Raw(s.deep_view()),
        }
    }
}

impl Clone for AuditDetail {
    fn clone(&self) -> (r: Self)
        ensures
            r.deep_view() == self.deep_view(),
    {
        match self {
            AuditDetail::Fields(v) => AuditDetail::Fields(clone_list(v)),
            AuditDetail::Raw(s) => AuditDetail::Raw(s.clone()),
        }
    }
}

/// A route that a node offers to its peers.
pub struct Route {
    pub prefix: String,
    pub kind: RouteKind,
    pub enabled: bool,
    pub mapped_prefix: Option<String>,
}

/// What [`Route`] holds.
#[verifier::ext_equal]
pub struct RouteView {
    pub prefix: Seq<char>,
    pub kind: RouteKind,
    pub enabled: bool,
    pub mapped_prefix: Option<Seq<char>>,
}

impl DeepView for Route {
    type V = RouteView;

    open spec fn deep_view(&self) -> RouteView {
        RouteView {
            prefix: self.prefix.deep_view(),
            kind: self.kind,
            enabled: self.enabled,
            mapped_prefix: self.mapped_prefix.deep_view(),
        }
    }
}

impl Clone for Route {
    fn clone(&self) -> (r: Self)
        ensures
            r.deep_view() == self.deep_view(),
    {
        Route {
            prefix: self.prefix.clone(),
            kind: self.kind,
            enabled: self.enabled,
            mapped_prefix: self.mapped_prefix.clone(),
        }
    }
}

/// Which nodes a rule is about: any, or those with one of these tags, ids or names.
pub struct AclSelector {
    pub any: bool,
    pub tags: Vec<String>,
    pub node_ids: Vec<String>,
    pub names: Vec<String>,
}

/// What [`AclSelector`] holds.
#[verifier::ext_equal]
pub struct AclSelectorView {
    pub any: bool,
    pub tags: Seq<Seq<char>>,
    pub node_ids: Seq<Seq<char>>,
    pub names: Seq<Seq<char>>,
}

impl DeepView for AclSelector {
    type V = AclSelectorView;

    open spec fn deep_view(&self) -> AclSelectorView {
        AclSelectorView {
            any: self.any,
            tags: self.tags.deep_view(),
            node_ids: self.node_ids.deep_view(),
            names: self.names.deep_view(),
        }
    }
}

impl Clone for AclSelector {
    fn clone(&self) -> (r: Self)
        ensures
            r.deep_view() == self.deep_view(),
    {
        AclSelector {
            any: self.any,
            tags: clone_list(&self.tags),
            node_ids: clone_list(&self.node_ids),
            names: clone_list(&self.names),
        }
    }
}

/// What happens to traffic from the nodes of `src` to the nodes of `dst`.
pub struct AclRule {
    pub action: AclAction,
    pub src: AclSelector,
    pub dst: AclSelector,
}

/// What [`AclRule`] holds.
#[verifier::ext_equal]
pub struct AclRuleView {
    pub action: AclAction,
    pub src: AclSelectorView,
    pub dst: AclSelectorView,
}

impl DeepView for AclRule {
    type V = AclRuleView;

    open spec fn deep_view(&self) -> AclRuleView {
        AclRuleView {
            action: self.action,
            src: self.src.deep_view(),
            dst: self.dst.deep_view(),
        }
    }
}

impl Clone for AclRule {
    fn clone(&self) -> (r: Self)
        ensures
            r.deep_view() == self.deep_view(),
    {
        AclRule {
            action: self.action,
            src: self.src.clone(),
            dst: self.dst.clone(),
        }
    }
}

/// The access rules of a network; the first rule that matches decides.
pub struct AclPolicy {
    pub default_action: AclAction,
    pub rules: Vec<AclRule>,
}

/// What [`AclPolicy`] holds.
#[verifier::ext_equal]
pub struct AclPolicyView {
    pub default_action: AclAction,
    pub rules: Seq<AclRuleView>,
}

impl DeepView for AclPolicy {
    type V = AclPolicyView;

    open spec fn deep_view(&self) -> AclPolicyView {
        AclPolicyView {
            default_action: self.default_action,
            rules: self.rules.deep_view(),
        }
    }
}

impl Clone for AclPolicy {
    fn clone(&self) -> (r: Self)
        ensures
            r.deep_view() == self.deep_view(),
    {
        AclPolicy {
            default_action: self.default_action,
            rules: clone_list(&self.rules),
        }
    }
}

/// How old the keys of a node may grow.
pub struct KeyRotationPolicy {
    pub max_age_seconds: Option<u64>,
}

/// What [`KeyRotationPolicy`] holds.
#[verifier::ext_equal]
pub struct KeyRotationPolicyView {
    pub max_age_seconds: Option<u64>,
}

impl DeepView for KeyRotationPolicy {
    type V = KeyRotationPolicyView;

    open spec fn deep_view(&self) -> KeyRotationPolicyView {
        KeyRotationPolicyView {
            max_age_seconds: self.max_age_seconds.deep_view(),
        }
    }
}

impl Clone for KeyRotationPolicy {
    fn clone(&self) -> (r: Self)
        ensures
            r.deep_view() == self.deep_view(),
    {
        KeyRotationPolicy {
            max_age_seconds: self.max_age_seconds,
        }
    }
}

/// A public key that a node has or had.
pub struct KeyRecord {
    pub key_type: KeyType,
    pub public_key: String,
    pub created_at: i64,
    pub revoked_at: Option<i64>,
}

/// What [`KeyRecord`] holds.
#[verifier::ext_equal]
pub struct KeyRecordView {
    pub key_type: KeyType,
    pub public_key: Seq<char>,
    pub created_at: i64,
    pub revoked_at: Option<i64>,
}

impl DeepView for KeyRecord {
    type V = KeyRecordView;

    open spec fn deep_view(&self) -> KeyRecordView {
        KeyRecordView {
            key_type: self.key_type,
            public_key: self.public_key.deep_view(),
            created_at: self.created_at,
            revoked_at: self.revoked_at.deep_view(),
        }
    }
}

impl Clone for KeyRecord {
    fn clone(&self) -> (r: Self)
        ensures
            r.deep_view() == self.deep_view(),
    {
        KeyRecord {
            key_type: self.key_type,
            public_key: self.public_key.clone(),
            created_at: self.created_at,
            revoked_at: self.revoked_at,
        }
    }
}

/// A network as the control plane keeps it.
pub struct NetworkState {
    pub id: String,
    pub name: String,
    pub overlay_v4: String,
    pub overlay_v6: String,
    pub dns_domain: String,
    pub requires_approval: bool,
    pub acl: AclPolicy,
    pub key_policy: KeyRotationPolicy,
    pub created_at: i64,
    pub next_ipv4: u32,
    pub next_ipv6: u128,
}

/// What [`NetworkState`] holds.
#[verifier::ext_equal]
pub struct NetworkStateView {
    pub id: Seq<char>,
    pub name: Seq<char>,
    pub overlay_v4: Seq<char>,
    pub overlay_v6: Seq<char>,
    pub dns_domain: Seq<char>,
    pub requires_approval: bool,
    pub acl: AclPolicyView,
    pub key_policy: KeyRotationPolicyView,
    pub created_at: i64,
    pub next_ipv4: u32,
    pub next_ipv6: u128,
}

impl DeepView for NetworkState {
    type V = NetworkStateView;

    open spec fn deep_view(&self) -> NetworkStateView {
        NetworkStateView {
            id: self.id.deep_view(),
            name: self.name.deep_view(),
            overlay_v4: self.overlay_v4.deep_view(),
            overlay_v6: self.overlay_v6.deep_view(),
            dns_domain: self.dns_domain.deep_view(),
            requires_approval: self.requires_approval,
            acl: self.acl.deep_view(),
            key_policy: self.key_policy.deep_view(),
            created_at: self.created_at,
            next_ipv4: self.next_ipv4,
            next_ipv6: self.next_ipv6,
        }
    }
}

impl Clone for NetworkState {
    fn clone(&self) -> (r: Self)
        ensures
            r.deep_view() == self.deep_view(),
    {
        NetworkState {
            id: self.id.clone(),
            name: self.name.clone(),
            overlay_v4: self.overlay_v4.clone(),
            overlay_v6: self.overlay_v6.clone(),
            dns_domain: self.dns_domain.clone(),
            requires_approval: self.requires_approval,
            acl: self.acl.clone(),
            key_policy: self.key_policy.clone(),
            created_at: self.created_at,
            next_ipv4: self.next_ipv4,
            next_ipv6: self.next_ipv6,
        }
    }
}

/// A node as the control plane keeps it.
pub struct NodeState {
    pub id: String,
    pub network_id: String,
    pub name: String,
    pub machine_public_key: String,
    pub wg_public_key: String,
    pub ipv4: String,
    pub ipv6: String,
    pub endpoints: Vec<String>,
    pub tags: Vec<String>,
    pub owner_user_id: Option<String>,
    pub owner_email: Option<String>,
    pub owner_is_admin: bool,
    pub routes: Vec<Route>,
    pub created_at: i64,
    pub last_seen: i64,
    pub probe_requested_at: Option<i64>,
    pub approved: bool,
    pub approved_at: Option<i64>,
    pub auth_secret: Option<String>,
    pub auth_expires_at: Option<i64>,
    pub node_token: Option<String>,
    pub revoked_at: Option<i64>,
    pub key_history: Vec<KeyRecord>,
}

/// What [`NodeState`] holds.
#[verifier::ext_equal]
pub struct NodeStateView {
    pub id: Seq<char>,
    pub network_id: Seq<char>,
    pub name: Seq<char>,
    pub machine_public_key: Seq<char>,
    pub wg_public_key: Seq<char>,
    pub ipv4: Seq<char>,
    pub ipv6: Seq<char>,
    pub endpoints: Seq<Seq<char>>,
    pub tags: Seq<Seq<char>>,
    pub owner_user_id: Option<Seq<char>>,
    pub owner_email: Option<Seq<char>>,
    pub owner_is_admin: bool,
    pub routes: Seq<RouteView>,
    pub created_at: i64,
    pub last_seen: i64,
    pub probe_requested_at: Option<i64>,
    pub approved: bool,
    pub approved_at: Option<i64>,
    pub auth_secret: Option<Seq<char>>,
    pub auth_expires_at: Option<i64>,
    pub node_token: Option<Seq<char>>,
    pub revoked_at: Option<i64>,
    pub key_history: Seq<KeyRecordView>,
}

impl DeepView for NodeState {
    type V = NodeStateView;

    open spec fn deep_view(&self) -> NodeStateView {
        NodeStateView {
            id: self.id.deep_view(),
            network_id: self.network_id.deep_view(),
            name: self.name.deep_view(),
            machine_public_key: self.machine_public_key.deep_view(),
            wg_public_key: self.wg_public_key.deep_view(),
            ipv4: self.ipv4.deep_view(),
            ipv6: self.ipv6.deep_view(),
            endpoints: self.endpoints.deep_view(),
            tags: self.tags.deep_view(),
            owner_user_id: self.owner_user_id.deep_view(),
            owner_email: self.owner_email.deep_view(),
            owner_is_admin: self.owner_is_admin,
            routes: self.routes.deep_view(),
            created_at: self.created_at,
            last_seen: self.last_seen,
            probe_requested_at: self.probe_requested_at.deep_view(),
            approved: self.approved,
            approved_at: self.approved_at.deep_view(),
            auth_secret: self.auth_secret.deep_view(),
            auth_expires_at: self.auth_expires_at.deep_view(),
            node_token: self.node_token.deep_view(),
            revoked_at: self.revoked_at.deep_view(),
            key_history: self.key_history.deep_view(),
        }
    }
}

impl Clone for NodeState {
    fn clone(&self) -> (r: Self)
        ensures
            r.deep_view() == self.deep_view(),
    {
        NodeState {
            id: self.id.clone(),
            network_id: self.network_id.clone(),
            name: self.name.clone(),
            machine_public_key: self.machine_public_key.clone(),
            wg_public_key: self.wg_public_key.clone(),
            ipv4: self.ipv4.clone(),
            ipv6: self.ipv6.clone(),
            endpoints: clone_list(&self.endpoints),
            tags: clone_list(&self.tags),
            owner_user_id: self.owner_user_id.clone(),
            owner_email: self.owner_email.clone(),
            owner_is_admin: self.owner_is_admin,
            routes: clone_list(&self.routes),
            created_at: self.created_at,
            last_seen: self.last_seen,
            probe_requested_at: self.probe_requested_at,
            approved: self.approved,
            approved_at: self.approved_at,
            auth_secret: self.auth_secret.clone(),
            auth_expires_at: self.auth_expires_at,
            node_token: self.node_token.clone(),
            revoked_at: self.revoked_at,
            key_history: clone_list(&self.key_history),
        }
    }
}

/// An enrollment token as the control plane keeps it.
pub struct TokenState {
    pub token: String,
    pub network_id: String,
    pub expires_at: i64,
    pub uses_left: u32,
    pub tags: Vec<String>,
    pub owner_user_id: Option<String>,
    pub owner_email: Option<String>,
    pub owner_is_admin: bool,
    pub revoked_at: Option<i64>,
}

/// What [`TokenState`] holds.
#[verifier::ext_equal]
pub struct TokenStateView {
    pub token: Seq<char>,
    pub network_id: Seq<char>,
    pub expires_at: i64,
    pub uses_left: u32,
    pub tags: Seq<Seq<char>>,
    pub owner_user_id: Option<Seq<char>>,
    pub owner_email: Option<Seq<char>>,
    pub owner_is_admin: bool,
    pub revoked_at: Option<i64>,
}

impl DeepView for TokenState {
    type V = TokenStateView;

    open spec fn deep_view(&self) -> TokenStateView {
        TokenStateView {
            token: self.token.deep_view(),
            network_id: self.network_id.deep_view(),
            expires_at: self.expires_at,
            uses_left: self.uses_left,
            tags: self.tags.deep_view(),
            owner_user_id: self.owner_user_id.deep_view(),
            owner_email: self.owner_email.deep_view(),
            owner_is_admin: self.owner_is_admin,
            revoked_at: self.revoked_at.deep_view(),
        }
    }
}

impl Clone for TokenState {
    fn clone(&self) -> (r: Self)
        ensures
            r.deep_view() == self.deep_view(),
    {
        TokenState {
            token: self.token.clone(),
            network_id: self.network_id.clone(),
            expires_at: self.expires_at,
            uses_left: self.uses_left,
            tags: clone_list(&self.tags),
            owner_user_id: self.owner_user_id.clone(),
            owner_email: self.owner_email.clone(),
            owner_is_admin: self.owner_is_admin,
            revoked_at: self.revoked_at,
        }
    }
}

/// One named value of an audit entry.
pub struct AuditField {
    pub name: String,
    pub value: AuditValue,
}

/// What [`AuditField`] holds.
#[verifier::ext_equal]
pub struct AuditFieldView {
    pub name: Seq<char>,
    pub value: AuditValueView,
}

impl DeepView for AuditField {
    type V = AuditFieldView;

    open spec fn deep_view(&self) -> AuditFieldView {
        AuditFieldView {
            name: self.name.deep_view(),
            value: self.value.deep_view(),
        }
    }
}

impl Clone for AuditField {
    fn clone(&self) -> (r: Self)
        ensures
            r.deep_view() == self.deep_view(),
    {
        AuditField {
            name: self.name.clone(),
            value: self.value.clone(),
        }
    }
}

/// A record of something that was done.
pub struct AuditEntry {
    pub id: String,
    pub timestamp: i64,
    pub network_id: Option<String>,
    pub node_id: Option<String>,
    pub action: String,
    pub detail: Option<AuditDetail>,
}

/// What [`AuditEntry`] holds.
#[verifier::ext_equal]
pub struct AuditEntryView {
    pub id: Seq<char>,
    pub timestamp: i64,
    pub network_id: Option<Seq<char>>,
    pub node_id: Option<Seq<char>>,
    pub action: Seq<char>,
    pub detail: Option<AuditDetailView>,
}

impl DeepView for AuditEntry {
    type V = AuditEntryView;

    open spec fn deep_view(&self) -> AuditEntryView {
        AuditEntryView {
            id: self.id.deep_view(),
            timestamp: self.timestamp,
            network_id: self.network_id.deep_view(),
            node_id: self.node_id.deep_view(),
            action: self.action.deep_view(),
            detail: self.detail.deep_view(),
        }
    }
}

impl Clone for AuditEntry {
    fn clone(&self) -> (r: Self)
        ensures
            r.deep_view() == self.deep_view(),
    {
        AuditEntry {
            id: self.id.clone(),
            timestamp: self.timestamp,
            network_id: self.network_id.clone(),
            node_id: self.node_id.clone(),
            action: self.action.clone(),
            detail: self.detail.clone(),
        }
    }
}

/// A network as clients see it.
pub struct NetworkInfo {
    pub id: String,
    pub name: String,
    pub overlay_v4: String,
    pub overlay_v6: String,
    pub dns_domain: String,
    pub requires_approval: bool,
    pub key_rotation_max_age_seconds: Option<u64>,
}

/// What [`NetworkInfo`] holds.
#[verifier::ext_equal]
pub struct NetworkInfoView {
    pub id: Seq<char>,
    pub name: Seq<char>,
    pub overlay_v4: Seq<char>,
    pub overlay_v6: Seq<char>,
    pub dns_domain: Seq<char>,
    pub requires_approval: bool,
    pub key_rotation_max_age_seconds: Option<u64>,
}

impl DeepView for NetworkInfo {
    type V = NetworkInfoView;

    open spec fn deep_view(&self) -> NetworkInfoView {
        NetworkInfoView {
            id: self.id.deep_view(),
            name: self.name.deep_view(),
            overlay_v4: self.overlay_v4.deep_view(),
            overlay_v6: self.overlay_v6.deep_view(),
            dns_domain: self.dns_domain.deep_view(),
            requires_approval: self.requires_approval,
            key_rotation_max_age_seconds: self.key_rotation_max_age_seconds.deep_view(),
        }
    }
}

impl Clone for NetworkInfo {
    fn clone(&self) -> (r: Self)
        ensures
            r.deep_view() == self.deep_view(),
    {
        NetworkInfo {
            id: self.id.clone(),
            name: self.name.clone(),
            overlay_v4: self.overlay_v4.clone(),
            overlay_v6: self.overlay_v6.clone(),
            dns_domain: self.dns_domain.clone(),
            requires_approval: self.requires_approval,
            key_rotation_max_age_seconds: self.key_rotation_max_age_seconds,
        }
    }
}

/// A node as its owner and administrators see it.
pub struct NodeInfo {
    pub id: String,
    pub name: String,
    pub dns_name: String,
    pub ipv4: String,
    pub ipv6: String,
    pub wg_public_key: String,
    pub machine_public_key: String,
    pub endpoints: Vec<String>,
    pub tags: Vec<String>,
    pub routes: Vec<Route>,
    pub last_seen: i64,
    pub approved: bool,
    pub key_rotation_required: bool,
    pub revoked: bool,
}

/// What [`NodeInfo`] holds.
#[verifier::ext_equal]
pub struct NodeInfoView {
    pub id: Seq<char>,
    pub name: Seq<char>,
    pub dns_name: Seq<char>,
    pub ipv4: Seq<char>,
    pub ipv6: Seq<char>,
    pub wg_public_key: Seq<char>,
    pub machine_public_key: Seq<char>,
    pub endpoints: Seq<Seq<char>>,
    pub tags: Seq<Seq<char>>,
    pub routes: Seq<RouteView>,
    pub last_seen: i64,
    pub approved: bool,
    pub key_rotation_required: bool,
    pub revoked: bool,
}

impl DeepView for NodeInfo {
    type V = NodeInfoView;

    open spec fn deep_view(&self) -> NodeInfoView {
        NodeInfoView {
            id: self.id.deep_view(),
            name: self.name.deep_view(),
            dns_name: self.dns_name.deep_view(),
            ipv4: self.ipv4.deep_view(),
            ipv6: self.ipv6.deep_view(),
            wg_public_key: self.wg_public_key.deep_view(),
            machine_public_key: self.machine_public_key.deep_view(),
            endpoints: self.endpoints.deep_view(),
            tags: self.tags.deep_view(),
            routes: self.routes.deep_view(),
            last_seen: self.last_seen,
            approved: self.approved,
            key_rotation_required: self.key_rotation_required,
            revoked: self.revoked,
        }
    }
}

impl Clone for NodeInfo {
    fn clone(&self) -> (r: Self)
        ensures
            r.deep_view() == self.deep_view(),
    {
        NodeInfo {
            id: self.id.clone(),
            name: self.name.clone(),
            dns_name: self.dns_name.clone(),
            ipv4: self.ipv4.clone(),
            ipv6: self.ipv6.clone(),
            wg_public_key: self.wg_public_key.clone(),
            machine_public_key: self.machine_public_key.clone(),
            endpoints: clone_list(&self.endpoints),
            tags: clone_list(&self.tags),
            routes: clone_list(&self.routes),
            last_seen: self.last_seen,
            approved: self.approved,
            key_rotation_required: self.key_rotation_required,
            revoked: self.revoked,
        }
    }
}

/// A node as its peers see it.
pub struct PeerInfo {
    pub id: String,
    pub name: String,
    pub dns_name: String,
    pub ipv4: String,
    pub ipv6: String,
    pub wg_public_key: String,
    pub endpoints: Vec<String>,
    pub tags: Vec<String>,
    pub routes: Vec<Route>,
    pub last_seen: i64,
}

/// What [`PeerInfo`] holds.
#[verifier::ext_equal]
pub struct PeerInfoView {
    pub id: Seq<char>,
    pub name: Seq<char>,
    pub dns_name: Seq<char>,
    pub ipv4: Seq<char>,
    pub ipv6: Seq<char>,
    pub wg_public_key: Seq<char>,
    pub endpoints: Seq<Seq<char>>,
    pub tags: Seq<Seq<char>>,
    pub routes: Seq<RouteView>,
    pub last_seen: i64,
}

impl DeepView for PeerInfo {
    type V = PeerInfoView;

    open spec fn deep_view(&self) -> PeerInfoView {
        PeerInfoView {
            id: self.id.deep_view(),
            name: self.name.deep_view(),
            dns_name: self.dns_name.deep_view(),
            ipv4: self.ipv4.deep_view(),
            ipv6: self.ipv6.deep_view(),
            wg_public_key: self.wg_public_key.deep_view(),
            endpoints: self.endpoints.deep_view(),
            tags: self.tags.deep_view(),
            routes: self.routes.deep_view(),
            last_seen: self.last_seen,
        }
    }
}

impl Clone for PeerInfo {
    fn clone(&self) -> (r: Self)
        ensures
            r.deep_view() == self.deep_view(),
    {
        PeerInfo {
            id: self.id.clone(),
            name: self.name.clone(),
            dns_name: self.dns_name.clone(),
            ipv4: self.ipv4.clone(),
            ipv6: self.ipv6.clone(),
            wg_public_key: self.wg_public_key.clone(),
            endpoints: clone_list(&self.endpoints),
            tags: clone_list(&self.tags),
            routes: clone_list(&self.routes),
            last_seen: self.last_seen,
        }
    }
}

/// The relay and name servers that clients may use.
pub struct RelayConfig {
    pub stun_servers: Vec<String>,
    pub turn_servers: Vec<String>,
    pub stream_relay_servers: Vec<String>,
    pub udp_relay_servers: Vec<String>,
    pub dns_servers: Vec<String>,
}

/// What [`RelayConfig`] holds.
#[verifier::ext_equal]
pub struct RelayConfigView {
    pub stun_servers: Seq<Seq<char>>,
    pub turn_servers: Seq<Seq<char>>,
    pub stream_relay_servers: Seq<Seq<char>>,
    pub udp_relay_servers: Seq<Seq<char>>,
    pub dns_servers: Seq<Seq<char>>,
}

impl DeepView for RelayConfig {
    type V = RelayConfigView;

    open spec fn deep_view(&self) -> RelayConfigView {
        RelayConfigView {
            stun_servers: self.stun_servers.deep_view(),
            turn_servers: self.turn_servers.deep_view(),
            stream_relay_servers: self.stream_relay_servers.deep_view(),
            udp_relay_servers: self.udp_relay_servers.deep_view(),
            dns_servers: self.dns_servers.deep_view(),
        }
    }
}

impl Clone for RelayConfig {
    fn clone(&self) -> (r: Self)
        ensures
            r.deep_view() == self.deep_view(),
    {
        RelayConfig {
            stun_servers: clone_list(&self.stun_servers),
            turn_servers: clone_list(&self.turn_servers),
            stream_relay_servers: clone_list(&self.stream_relay_servers),
            udp_relay_servers: clone_list(&self.udp_relay_servers),
            dns_servers: clone_list(&self.dns_servers),
        }
    }
}

/// A peer that asked to be probed.
pub struct ProbeRequest {
    pub peer_id: String,
    pub endpoints: Vec<String>,
    pub ipv4: String,
    pub ipv6: String,
    pub requested_at: i64,
}

/// What [`ProbeRequest`] holds.
#[verifier::ext_equal]
pub struct ProbeRequestView {
    pub peer_id: Seq<char>,
    pub endpoints: Seq<Seq<char>>,
    pub ipv4: Seq<char>,
    pub ipv6: Seq<char>,
    pub requested_at: i64,
}

impl DeepView for ProbeRequest {
    type V = ProbeRequestView;

    open spec fn deep_view(&self) -> ProbeRequestView {
        ProbeRequestView {
            peer_id: self.peer_id.deep_view(),
            endpoints: self.endpoints.deep_view(),
            ipv4: self.ipv4.deep_view(),
            ipv6: self.ipv6.deep_view(),
            requested_at: self.requested_at,
        }
    }
}

impl Clone for ProbeRequest {
    fn clone(&self) -> (r: Self)
        ensures
            r.deep_view() == self.deep_view(),
    {
        ProbeRequest {
            peer_id: self.peer_id.clone(),
            endpoints: clone_list(&self.endpoints),
            ipv4: self.ipv4.clone(),
            ipv6: self.ipv6.clone(),
            requested_at: self.requested_at,
        }
    }
}

/// What a node needs to know of its network.
pub struct NetMap {
    pub network: NetworkInfo,
    pub node: NodeInfo,
    pub peers: Vec<PeerInfo>,
    pub relay: Option<RelayConfig>,
    pub probe_requests: Vec<ProbeRequest>,
    pub generated_at: i64,
    pub revision: u64,
}

/// What [`NetMap`] holds.
#[verifier::ext_equal]
pub struct NetMapView {
    pub network: NetworkInfoView,
    pub node: NodeInfoView,
    pub peers: Seq<PeerInfoView>,
    pub relay: Option<RelayConfigView>,
    pub probe_requests: Seq<ProbeRequestView>,
    pub generated_at: i64,
    pub revision: u64,
}

impl DeepView for NetMap {
    type V = NetMapView;

    open spec fn deep_view(&self) -> NetMapView {
        NetMapView {
            network: self.network.deep_view(),
            node: self.node.deep_view(),
            peers: self.peers.deep_view(),
            relay: self.relay.deep_view(),
            probe_requests: self.probe_requests.deep_view(),
            generated_at: self.generated_at,
            revision: self.revision,
        }
    }
}

impl Clone for NetMap {
    fn clone(&self) -> (r: Self)
        ensures
            r.deep_view() == self.deep_view(),
    {
        NetMap {
            network: self.network.clone(),
            node: self.node.clone(),
            peers: clone_list(&self.peers),
            relay: self.relay.clone(),
            probe_requests: clone_list(&self.probe_requests),
            generated_at: self.generated_at,
            revision: self.revision,
        }
    }
}

/// An enrollment token as administrators see it.
pub struct EnrollmentToken {
    pub token: String,
    pub expires_at: i64,
    pub uses_left: u32,
    pub tags: Vec<String>,
    pub revoked_at: Option<i64>,
}

/// What [`EnrollmentToken`] holds.
#[verifier::ext_equal]
pub struct EnrollmentTokenView {
    pub token: Seq<char>,
    pub expires_at: i64,
    pub uses_left: u32,
    pub tags: Seq<Seq<char>>,
    pub revoked_at: Option<i64>,
}

impl DeepView for EnrollmentToken {
    type V = EnrollmentTokenView;

    open spec fn deep_view(&self) -> EnrollmentTokenView {
        EnrollmentTokenView {
            token: self.token.deep_view(),
            expires_at: self.expires_at,
            uses_left: self.uses_left,
            tags: self.tags.deep_view(),
            revoked_at: self.revoked_at.deep_view(),
        }
    }
}

impl Clone for EnrollmentToken {
    fn clone(&self) -> (r: Self)
        ensures
            r.deep_view() == self.deep_view(),
    {
        EnrollmentToken {
            token: self.token.clone(),
            expires_at: self.expires_at,
            uses_left: self.uses_left,
            tags: clone_list(&self.tags),
            revoked_at: self.revoked_at,
        }
    }
}

/// The network that is to be made.
pub struct CreateNetworkRequest {
    pub name: String,
    pub overlay_v4: Option<String>,
    pub overlay_v6: Option<String>,
    pub dns_domain: Option<String>,
    pub requires_approval: Option<bool>,
    pub key_rotation_max_age_seconds: Option<u64>,
    pub bootstrap_token_ttl_seconds: Option<u64>,
    pub bootstrap_token_uses: Option<u32>,
    pub bootstrap_token_tags: Option<Vec<String>>,
}

/// What [`CreateNetworkRequest`] holds.
#[verifier::ext_equal]
pub struct CreateNetworkRequestView {
    pub name: Seq<char>,
    pub overlay_v4: Option<Seq<char>>,
    pub overlay_v6: Option<Seq<char>>,
    pub dns_domain: Option<Seq<char>>,
    pub requires_approval: Option<bool>,
    pub key_rotation_max_age_seconds: Option<u64>,
    pub bootstrap_token_ttl_seconds: Option<u64>,
    pub bootstrap_token_uses: Option<u32>,
    pub bootstrap_token_tags: Option<Seq<Seq<char>>>,
}

impl DeepView for CreateNetworkRequest {
    type V = CreateNetworkRequestView;

    open spec fn deep_view(&self) -> CreateNetworkRequestView {
        CreateNetworkRequestView {
            name: self.name.deep_view(),
            overlay_v4: self.overlay_v4.deep_view(),
            overlay_v6: self.overlay_v6.deep_view(),
            dns_domain: self.dns_domain.deep_view(),
            requires_approval: self.requires_approval.deep_view(),
            key_rotation_max_age_seconds: self.key_rotation_max_age_seconds.deep_view(),
            bootstrap_token_ttl_seconds: self.bootstrap_token_ttl_seconds.deep_view(),
            bootstrap_token_uses: self.bootstrap_token_uses.deep_view(),
            bootstrap_token_tags: self.bootstrap_token_tags.deep_view(),
        }
    }
}

impl Clone for CreateNetworkRequest {
    fn clone(&self) -> (r: Self)
        ensures
            r.deep_view() == self.deep_view(),
    {
        CreateNetworkRequest {
            name: self.name.clone(),
            overlay_v4: self.overlay_v4.clone(),
            overlay_v6: self.overlay_v6.clone(),
            dns_domain: self.dns_domain.clone(),
            requires_approval: self.requires_approval,
            key_rotation_max_age_seconds: self.key_rotation_max_age_seconds,
            bootstrap_token_ttl_seconds: self.bootstrap_token_ttl_seconds,
            bootstrap_token_uses: self.bootstrap_token_uses,
            bootstrap_token_tags: match &self.bootstrap_token_tags {
                Some(list) => Some(clone_list(list)),
                None => None,
            },
        }
    }
}

/// The network that was made, with its first token where one was asked for.
pub struct CreateNetworkResponse {
    pub network: NetworkInfo,
    pub bootstrap_token: Option<EnrollmentToken>,
}

/// What [`CreateNetworkResponse`] holds.
#[verifier::ext_equal]
pub struct CreateNetworkResponseView {
    pub network: NetworkInfoView,
    pub bootstrap_token: Option<EnrollmentTokenView>,
}

impl DeepView for CreateNetworkResponse {
    type V = CreateNetworkResponseView;

    open spec fn deep_view(&self) -> CreateNetworkResponseView {
        CreateNetworkResponseView {
            network: self.network.deep_view(),
            bootstrap_token: self.bootstrap_token.deep_view(),
        }
    }
}

impl Clone for CreateNetworkResponse {
    fn clone(&self) -> (r: Self)
        ensures
            r.deep_view() == self.deep_view(),
    {
        CreateNetworkResponse {
            network: self.network.clone(),
            bootstrap_token: self.bootstrap_token.clone(),
        }
    }
}

/// The token that is to be made.
pub struct CreateTokenRequest {
    pub ttl_seconds: u64,
    pub uses: u32,
    pub tags: Vec<String>,
    pub owner_user_id: Option<String>,
    pub owner_email: Option<String>,
    pub owner_is_admin: Option<bool>,
}

/// What [`CreateTokenRequest`] holds.
#[verifier::ext_equal]
pub struct CreateTokenRequestView {
    pub ttl_seconds: u64,
    pub uses: u32,
    pub tags: Seq<Seq<char>>,
    pub owner_user_id: Option<Seq<char>>,
    pub owner_email: Option<Seq<char>>,
    pub owner_is_admin: Option<bool>,
}

impl DeepView for CreateTokenRequest {
    type V = CreateTokenRequestView;

    open spec fn deep_view(&self) -> CreateTokenRequestView {
        CreateTokenRequestView {
            ttl_seconds: self.ttl_seconds,
            uses: self.uses,
            tags: self.tags.deep_view(),
            owner_user_id: self.owner_user_id.deep_view(),
            owner_email: self.owner_email.deep_view(),
            owner_is_admin: self.owner_is_admin.deep_view(),
        }
    }
}

impl Clone for CreateTokenRequest {
    fn clone(&self) -> (r: Self)
        ensures
            r.deep_view() == self.deep_view(),
    {
        CreateTokenRequest {
            ttl_seconds: self.ttl_seconds,
            uses: self.uses,
            tags: clone_list(&self.tags),
            owner_user_id: self.owner_user_id.clone(),
            owner_email: self.owner_email.clone(),
            owner_is_admin: self.owner_is_admin,
        }
    }
}

/// The token that was made.
pub struct CreateTokenResponse {
    pub token: EnrollmentToken,
}

/// What [`CreateTokenResponse`] holds.
#[verifier::ext_equal]
pub struct CreateTokenResponseView {
    pub token: EnrollmentTokenView,
}

impl DeepView for CreateTokenResponse {
    type V = CreateTokenResponseView;

    open spec fn deep_view(&self) -> CreateTokenResponseView {
        CreateTokenResponseView {
            token: self.token.deep_view(),
        }
    }
}

impl Clone for CreateTokenResponse {
    fn clone(&self) -> (r: Self)
        ensures
            r.deep_view() == self.deep_view(),
    {
        CreateTokenResponse {
            token: self.token.clone(),
        }
    }
}

/// The tokens of a network.
pub struct ListTokensResponse {
    pub tokens: Vec<EnrollmentToken>,
}

/// What [`ListTokensResponse`] holds.
#[verifier::ext_equal]
pub struct ListTokensResponseView {
    pub tokens: Seq<EnrollmentTokenView>,
}

impl DeepView for ListTokensResponse {
    type V = ListTokensResponseView;

    open spec fn deep_view(&self) -> ListTokensResponseView {
        ListTokensResponseView {
            tokens: self.tokens.deep_view(),
        }
    }
}

impl Clone for ListTokensResponse {
    fn clone(&self) -> (r: Self)
        ensures
            r.deep_view() == self.deep_view(),
    {
        ListTokensResponse {
            tokens: clone_list(&self.tokens),
        }
    }
}

/// The nodes of a network.
pub struct AdminNodesResponse {
    pub nodes: Vec<NodeInfo>,
}

/// What [`AdminNodesResponse`] holds.
#[verifier::ext_equal]
pub struct AdminNodesResponseView {
    pub nodes: Seq<NodeInfoView>,
}

impl DeepView for AdminNodesResponse {
    type V = AdminNodesResponseView;

    open spec fn deep_view(&self) -> AdminNodesResponseView {
        AdminNodesResponseView {
            nodes: self.nodes.deep_view(),
        }
    }
}

impl Clone for AdminNodesResponse {
    fn clone(&self) -> (r: Self)
        ensures
            r.deep_view() == self.deep_view(),
    {
        AdminNodesResponse {
            nodes: clone_list(&self.nodes),
        }
    }
}

/// The access rules that a network is to have.
pub struct UpdateAclRequest {
    pub policy: AclPolicy,
}

/// What [`UpdateAclRequest`] holds.
#[verifier::ext_equal]
pub struct UpdateAclRequestView {
    pub policy: AclPolicyView,
}

impl DeepView for UpdateAclRequest {
    type V = UpdateAclRequestView;

    open spec fn deep_view(&self) -> UpdateAclRequestView {
        UpdateAclRequestView {
            policy: self.policy.deep_view(),
        }
    }
}

impl Clone for UpdateAclRequest {
    fn clone(&self) -> (r: Self)
        ensures
            r.deep_view() == self.deep_view(),
    {
        UpdateAclRequest {
            policy: self.policy.clone(),
        }
    }
}

/// The access rules that a network has.
pub struct UpdateAclResponse {
    pub policy: AclPolicy,
}

/// What [`UpdateAclResponse`] holds.
#[verifier::ext_equal]
pub struct UpdateAclResponseView {
    pub policy: AclPolicyView,
}

impl DeepView for UpdateAclResponse {
    type V = UpdateAclResponseView;

    open spec fn deep_view(&self) -> UpdateAclResponseView {
        UpdateAclResponseView {
            policy: self.policy.deep_view(),
        }
    }
}

impl Clone for UpdateAclResponse {
    fn clone(&self) -> (r: Self)
        ensures
            r.deep_view() == self.deep_view(),
    {
        UpdateAclResponse {
            policy: self.policy.clone(),
        }
    }
}

/// The name and tags that a node is to have.
pub struct UpdateNodeRequest {
    pub name: Option<String>,
    pub tags: Option<Vec<String>>,
}

/// What [`UpdateNodeRequest`] holds.
#[verifier::ext_equal]
pub struct UpdateNodeRequestView {
    pub name: Option<Seq<char>>,
    pub tags: Option<Seq<Seq<char>>>,
}

impl DeepView for UpdateNodeRequest {
    type V = UpdateNodeRequestView;

    open spec fn deep_view(&self) -> UpdateNodeRequestView {
        UpdateNodeRequestView {
            name: self.name.deep_view(),
            tags: self.tags.deep_view(),
        }
    }
}

impl Clone for UpdateNodeRequest {
    fn clone(&self) -> (r: Self)
        ensures
            r.deep_view() == self.deep_view(),
    {
        UpdateNodeRequest {
            name: self.name.clone(),
            tags: match &self.tags {
                Some(list) => Some(clone_list(list)),
                None => None,
            },
        }
    }
}

/// A node after an update.
pub struct UpdateNodeResponse {
    pub node: NodeInfo,
}

/// What [`UpdateNodeResponse`] holds.
#[verifier::ext_equal]
pub struct UpdateNodeResponseView {
    pub node: NodeInfoView,
}

impl DeepView for UpdateNodeResponse {
    type V = UpdateNodeResponseView;

    open spec fn deep_view(&self) -> UpdateNodeResponseView {
        UpdateNodeResponseView {
            node: self.node.deep_view(),
        }
    }
}

impl Clone for UpdateNodeResponse {
    fn clone(&self) -> (r: Self)
        ensures
            r.deep_view() == self.deep_view(),
    {
        UpdateNodeResponse {
            node: self.node.clone(),
        }
    }
}

/// The key policy of a network.
pub struct KeyPolicyResponse {
    pub policy: KeyRotationPolicy,
}

/// What [`KeyPolicyResponse`] holds.
#[verifier::ext_equal]
pub struct KeyPolicyResponseView {
    pub policy: KeyRotationPolicyView,
}

impl DeepView for KeyPolicyResponse {
    type V = KeyPolicyResponseView;

    open spec fn deep_view(&self) -> KeyPolicyResponseView {
        KeyPolicyResponseView {
            policy: self.policy.deep_view(),
        }
    }
}

impl Clone for KeyPolicyResponse {
    fn clone(&self) -> (r: Self)
        ensures
            r.deep_view() == self.deep_view(),
    {
        KeyPolicyResponse {
            policy: self.policy.clone(),
        }
    }
}

/// The keys that a node is to have.
pub struct KeyRotationRequest {
    pub machine_public_key: Option<String>,
    pub wg_public_key: Option<String>,
}

/// What [`KeyRotationRequest`] holds.
#[verifier::ext_equal]
pub struct KeyRotationRequestView {
    pub machine_public_key: Option<Seq<char>>,
    pub wg_public_key: Option<Seq<char>>,
}

impl DeepView for KeyRotationRequest {
    type V = KeyRotationRequestView;

    open spec fn deep_view(&self) -> KeyRotationRequestView {
        KeyRotationRequestView {
            machine_public_key: self.machine_public_key.deep_view(),
            wg_public_key: self.wg_public_key.deep_view(),
        }
    }
}

impl Clone for KeyRotationRequest {
    fn clone(&self) -> (r: Self)
        ensures
            r.deep_view() == self.deep_view(),
    {
        KeyRotationRequest {
            machine_public_key: self.machine_public_key.clone(),
            wg_public_key: self.wg_public_key.clone(),
        }
    }
}

/// The keys that a node has.
pub struct KeyRotationResponse {
    pub node_id: String,
    pub machine_public_key: String,
    pub wg_public_key: String,
}

/// What [`KeyRotationResponse`] holds.
#[verifier::ext_equal]
pub struct KeyRotationResponseView {
    pub node_id: Seq<char>,
    pub machine_public_key: Seq<char>,
    pub wg_public_key: Seq<char>,
}

impl DeepView for KeyRotationResponse {
    type V = KeyRotationResponseView;

    open spec fn deep_view(&self) -> KeyRotationResponseView {
        KeyRotationResponseView {
            node_id: self.node_id.deep_view(),
            machine_public_key: self.machine_public_key.deep_view(),
            wg_public_key: self.wg_public_key.deep_view(),
        }
    }
}

impl Clone for KeyRotationResponse {
    fn clone(&self) -> (r: Self)
        ensures
            r.deep_view() == self.deep_view(),
    {
        KeyRotationResponse {
            node_id: self.node_id.clone(),
            machine_public_key: self.machine_public_key.clone(),
            wg_public_key: self.wg_public_key.clone(),
        }
    }
}

/// The keys that a node has or had.
pub struct KeyHistoryResponse {
    pub node_id: String,
    pub keys: Vec<KeyRecord>,
}

/// What [`KeyHistoryResponse`] holds.
#[verifier::ext_equal]
pub struct KeyHistoryResponseView {
    pub node_id: Seq<char>,
    pub keys: Seq<KeyRecordView>,
}

impl DeepView for KeyHistoryResponse {
    type V = KeyHistoryResponseView;

    open spec fn deep_view(&self) -> KeyHistoryResponseView {
        KeyHistoryResponseView {
            node_id: self.node_id.deep_view(),
            keys: self.keys.deep_view(),
        }
    }
}

impl Clone for KeyHistoryResponse {
    fn clone(&self) -> (r: Self)
        ensures
            r.deep_view() == self.deep_view(),
    {
        KeyHistoryResponse {
            node_id: self.node_id.clone(),
            keys: clone_list(&self.keys),
        }
    }
}

/// Entries of the audit log.
pub struct AuditLogResponse {
    pub entries: Vec<AuditEntry>,
}

/// What [`AuditLogResponse`] holds.
#[verifier::ext_equal]
pub struct AuditLogResponseView {
    pub entries: Seq<AuditEntryView>,
}

impl DeepView for AuditLogResponse {
    type V = AuditLogResponseView;

    open spec fn deep_view(&self) -> AuditLogResponseView {
        AuditLogResponseView {
            entries: self.entries.deep_view(),
        }
    }
}

impl Clone for AuditLogResponse {
    fn clone(&self) -> (r: Self)
        ensures
            r.deep_view() == self.deep_view(),
    {
        AuditLogResponse {
            entries: clone_list(&self.entries),
        }
    }
}

/// A node that asks to join with an enrollment token.
pub struct RegisterRequest {
    pub token: String,
    pub node_name: String,
    pub machine_public_key: String,
    pub wg_public_key: String,
}

/// What [`RegisterRequest`] holds.
#[verifier::ext_equal]
pub struct RegisterRequestView {
    pub token: Seq<char>,
    pub node_name: Seq<char>,
    pub machine_public_key: Seq<char>,
    pub wg_public_key: Seq<char>,
}

impl DeepView for RegisterRequest {
    type V = RegisterRequestView;

    open spec fn deep_view(&self) -> RegisterRequestView {
        RegisterRequestView {
            token: self.token.deep_view(),
            node_name: self.node_name.deep_view(),
            machine_public_key: self.machine_public_key.deep_view(),
            wg_public_key: self.wg_public_key.deep_view(),
        }
    }
}

impl Clone for RegisterRequest {
    fn clone(&self) -> (r: Self)
        ensures
            r.deep_view() == self.deep_view(),
    {
        RegisterRequest {
            token: self.token.clone(),
            node_name: self.node_name.clone(),
            machine_public_key: self.machine_public_key.clone(),
            wg_public_key: self.wg_public_key.clone(),
        }
    }
}

/// What a node that joined needs.
pub struct RegisterResponse {
    pub node_token: String,
    pub netmap: NetMap,
}

/// What [`RegisterResponse`] holds.
#[verifier::ext_equal]
pub struct RegisterResponseView {
    pub node_token: Seq<char>,
    pub netmap: NetMapView,
}

impl DeepView for RegisterResponse {
    type V = RegisterResponseView;

    open spec fn deep_view(&self) -> RegisterResponseView {
        RegisterResponseView {
            node_token: self.node_token.deep_view(),
            netmap: self.netmap.deep_view(),
        }
    }
}

impl Clone for RegisterResponse {
    fn clone(&self) -> (r: Self)
        ensures
            r.deep_view() == self.deep_view(),
    {
        RegisterResponse {
            node_token: self.node_token.clone(),
            netmap: self.netmap.clone(),
        }
    }
}

/// A node that asks to join and waits for approval.
pub struct RegisterUrlRequest {
    pub network_id: String,
    pub node_name: String,
    pub machine_public_key: String,
    pub wg_public_key: String,
    pub ttl_seconds: Option<u64>,
}

/// What [`RegisterUrlRequest`] holds.
#[verifier::ext_equal]
pub struct RegisterUrlRequestView {
    pub network_id: Seq<char>,
    pub node_name: Seq<char>,
    pub machine_public_key: Seq<char>,
    pub wg_public_key: Seq<char>,
    pub ttl_seconds: Option<u64>,
}

impl DeepView for RegisterUrlRequest {
    type V = RegisterUrlRequestView;

    open spec fn deep_view(&self) -> RegisterUrlRequestView {
        RegisterUrlRequestView {
            network_id: self.network_id.deep_view(),
            node_name: self.node_name.deep_view(),
            machine_public_key: self.machine_public_key.deep_view(),
            wg_public_key: self.wg_public_key.deep_view(),
            ttl_seconds: self.ttl_seconds.deep_view(),
        }
    }
}

impl Clone for RegisterUrlRequest {
    fn clone(&self) -> (r: Self)
        ensures
            r.deep_view() == self.deep_view(),
    {
        RegisterUrlRequest {
            network_id: self.network_id.clone(),
            node_name: self.node_name.clone(),
            machine_public_key: self.machine_public_key.clone(),
            wg_public_key: self.wg_public_key.clone(),
            ttl_seconds: self.ttl_seconds,
        }
    }
}

/// What a node that waits for approval needs.
pub struct RegisterUrlResponse {
    pub node_id: String,
    pub network_id: String,
    pub ipv4: String,
    pub ipv6: String,
    pub auth_path: String,
    pub expires_at: i64,
    pub node_token: String,
}

/// What [`RegisterUrlResponse`] holds.
#[verifier::ext_equal]
pub struct RegisterUrlResponseView {
    pub node_id: Seq<char>,
    pub network_id: Seq<char>,
    pub ipv4: Seq<char>,
    pub ipv6: Seq<char>,
    pub auth_path: Seq<char>,
    pub expires_at: i64,
    pub node_token: Seq<char>,
}

impl DeepView for RegisterUrlResponse {
    type V = RegisterUrlResponseView;

    open spec fn deep_view(&self) -> RegisterUrlResponseView {
        RegisterUrlResponseView {
            node_id: self.node_id.deep_view(),
            network_id: self.network_id.deep_view(),
            ipv4: self.ipv4.deep_view(),
            ipv6: self.ipv6.deep_view(),
            auth_path: self.auth_path.deep_view(),
            expires_at: self.expires_at,
            node_token: self.node_token.deep_view(),
        }
    }
}

impl Clone for RegisterUrlResponse {
    fn clone(&self) -> (r: Self)
        ensures
            r.deep_view() == self.deep_view(),
    {
        RegisterUrlResponse {
            node_id: self.node_id.clone(),
            network_id: self.network_id.clone(),
            ipv4: self.ipv4.clone(),
            ipv6: self.ipv6.clone(),
            auth_path: self.auth_path.clone(),
            expires_at: self.expires_at,
            node_token: self.node_token.clone(),
        }
    }
}

/// What a node reports of itself.
pub struct HeartbeatRequest {
    pub node_id: String,
    pub endpoints: Vec<String>,
    pub listen_port: Option<u16>,
    pub routes: Vec<Route>,
    pub probe: Option<bool>,
}

/// What [`HeartbeatRequest`] holds.
#[verifier::ext_equal]
pub struct HeartbeatRequestView {
    pub node_id: Seq<char>,
    pub endpoints: Seq<Seq<char>>,
    pub listen_port: Option<u16>,
    pub routes: Seq<RouteView>,
    pub probe: Option<bool>,
}

impl DeepView for HeartbeatRequest {
    type V = HeartbeatRequestView;

    open spec fn deep_view(&self) -> HeartbeatRequestView {
        HeartbeatRequestView {
            node_id: self.node_id.deep_view(),
            endpoints: self.endpoints.deep_view(),
            listen_port: self.listen_port.deep_view(),
            routes: self.routes.deep_view(),
            probe: self.probe.deep_view(),
        }
    }
}

impl Clone for HeartbeatRequest {
    fn clone(&self) -> (r: Self)
        ensures
            r.deep_view() == self.deep_view(),
    {
        HeartbeatRequest {
            node_id: self.node_id.clone(),
            endpoints: clone_list(&self.endpoints),
            listen_port: self.listen_port,
            routes: clone_list(&self.routes),
            probe: self.probe,
        }
    }
}

/// What a node that reported needs.
pub struct HeartbeatResponse {
    pub netmap: NetMap,
}

/// What [`HeartbeatResponse`] holds.
#[verifier::ext_equal]
pub struct HeartbeatResponseView {
    pub netmap: NetMapView,
}

impl DeepView for HeartbeatResponse {
    type V = HeartbeatResponseView;

    open spec fn deep_view(&self) -> HeartbeatResponseView {
        HeartbeatResponseView {
            netmap: self.netmap.deep_view(),
        }
    }
}

impl Clone for HeartbeatResponse {
    fn clone(&self) -> (r: Self)
        ensures
            r.deep_view() == self.deep_view(),
    {
        HeartbeatResponse {
            netmap: self.netmap.clone(),
        }
    }
}

/// The node that was deleted.
pub struct DeleteNodeResponse {
    pub node_id: String,
}

/// What [`DeleteNodeResponse`] holds.
#[verifier::ext_equal]
pub struct DeleteNodeResponseView {
    pub node_id: Seq<char>,
}

impl DeepView for DeleteNodeResponse {
    type V = DeleteNodeResponseView;

    open spec fn deep_view(&self) -> DeleteNodeResponseView {
        DeleteNodeResponseView {
            node_id: self.node_id.deep_view(),
        }
    }
}

impl Clone for DeleteNodeResponse {
    fn clone(&self) -> (r: Self)
        ensures
            r.deep_view() == self.deep_view(),
    {
        DeleteNodeResponse {
            node_id: self.node_id.clone(),
        }
    }
}

/// Whether and when a node was approved.
pub struct ApproveNodeResponse {
    pub node_id: String,
    pub approved: bool,
    pub approved_at: Option<i64>,
}

/// What [`ApproveNodeResponse`] holds.
#[verifier::ext_equal]
pub struct ApproveNodeResponseView {
    pub node_id: Seq<char>,
    pub approved: bool,
    pub approved_at: Option<i64>,
}

impl DeepView for ApproveNodeResponse {
    type V = ApproveNodeResponseView;

    open spec fn deep_view(&self) -> ApproveNodeResponseView {
        ApproveNodeResponseView {
            node_id: self.node_id.deep_view(),
            approved: self.approved,
            approved_at: self.approved_at.deep_view(),
        }
    }
}

impl Clone for ApproveNodeResponse {
    fn clone(&self) -> (r: Self)
        ensures
            r.deep_view() == self.deep_view(),
    {
        ApproveNodeResponse {
            node_id: self.node_id.clone(),
            approved: self.approved,
            approved_at: self.approved_at,
        }
    }
}

/// When a node was revoked.
pub struct RevokeNodeResponse {
    pub node_id: String,
    pub revoked_at: Option<i64>,
}

/// What [`RevokeNodeResponse`] holds.
#[verifier::ext_equal]
pub struct RevokeNodeResponseView {
    pub node_id: Seq<char>,
    pub revoked_at: Option<i64>,
}

impl DeepView for RevokeNodeResponse {
    type V = RevokeNodeResponseView;

    open spec fn deep_view(&self) -> RevokeNodeResponseView {
        RevokeNodeResponseView {
            node_id: self.node_id.deep_view(),
            revoked_at: self.revoked_at.deep_view(),
        }
    }
}

impl Clone for RevokeNodeResponse {
    fn clone(&self) -> (r: Self)
        ensures
            r.deep_view() == self.deep_view(),
    {
        RevokeNodeResponse {
            node_id: self.node_id.clone(),
            revoked_at: self.revoked_at,
        }
    }
}

/// A server of the control plane.
pub struct ControlPlaneMeshPeer {
    pub id: String,
    pub addr: String,
}

/// What [`ControlPlaneMeshPeer`] holds.
#[verifier::ext_equal]
pub struct ControlPlaneMeshPeerView {
    pub id: Seq<char>,
    pub addr: Seq<char>,
}

impl DeepView for ControlPlaneMeshPeer {
    type V = ControlPlaneMeshPeerView;

    open spec fn deep_view(&self) -> ControlPlaneMeshPeerView {
        ControlPlaneMeshPeerView {
            id: self.id.deep_view(),
            addr: self.addr.deep_view(),
        }
    }
}

impl Clone for ControlPlaneMeshPeer {
    fn clone(&self) -> (r: Self)
        ensures
            r.deep_view() == self.deep_view(),
    {
        ControlPlaneMeshPeer {
            id: self.id.clone(),
            addr: self.addr.clone(),
        }
    }
}

/// The servers of the control plane.
pub struct ControlPlaneTopologyResponse {
    pub control_urls: Vec<String>,
    pub mesh_server_id: Option<String>,
    pub mesh_peers: Vec<ControlPlaneMeshPeer>,
    pub generated_at: i64,
}

/// What [`ControlPlaneTopologyResponse`] holds.
#[verifier::ext_equal]
pub struct ControlPlaneTopologyResponseView {
    pub control_urls: Seq<Seq<char>>,
    pub mesh_server_id: Option<Seq<char>>,
    pub mesh_peers: Seq<ControlPlaneMeshPeerView>,
    pub generated_at: i64,
}

impl DeepView for ControlPlaneTopologyResponse {
    type V = ControlPlaneTopologyResponseView;

    open spec fn deep_view(&self) -> ControlPlaneTopologyResponseView {
        ControlPlaneTopologyResponseView {
            control_urls: self.control_urls.deep_view(),
            mesh_server_id: self.mesh_server_id.deep_view(),
            mesh_peers: self.mesh_peers.deep_view(),
            generated_at: self.generated_at,
        }
    }
}

impl Clone for ControlPlaneTopologyResponse {
    fn clone(&self) -> (r: Self)
        ensures
            r.deep_view() == self.deep_view(),
    {
        ControlPlaneTopologyResponse {
            control_urls: clone_list(&self.control_urls),
            mesh_server_id: self.mesh_server_id.clone(),
            mesh_peers: clone_list(&self.mesh_peers),
            generated_at: self.generated_at,
        }
    }
}
impl Default for AclPolicy {
    fn default() -> (r: Self)
        ensures
            r.deep_view() == AclPolicyView::open_to_all(),
    {
        let r = AclPolicy { default_action: AclAction::Allow, rules: Vec::new() };
        assert(r.deep_view() =~= AclPolicyView::open_to_all());
        r
    }
}

impl AclPolicyView {
    /// The policy that allows everything.
    pub open spec fn open_to_all() -> Self {
        AclPolicyView { default_action: AclAction::Allow, rules: Seq::empty() }
    }
}

impl Default for AclSelector {
    fn default() -> (r: Self)
        ensures
            r.deep_view() == (AclSelectorView {
                any: false,
                tags: Seq::empty(),
                node_ids: Seq::empty(),
                names: Seq::empty(),
            }),
    {
        let r = AclSelector {
            any: false,
            tags: Vec::new(),
            node_ids: Vec::new(),
            names: Vec::new(),
        };
        assert(r.tags.deep_view() =~= Seq::<Seq<char>>::empty());
        assert(r.node_ids.deep_view() =~= Seq::<Seq<char>>::empty());
        assert(r.names.deep_view() =~= Seq::<Seq<char>>::empty());
        r
    }
}

impl Default for KeyRotationPolicy {
    fn default() -> (r: Self)
        ensures
            r.max_age_seconds is None,
    {
        KeyRotationPolicy { max_age_seconds: None }
    }
}

impl Default for RelayConfig {
    fn default() -> (r: Self)
        ensures
            r.deep_view() == (RelayConfigView {
                stun_servers: Seq::empty(),
                turn_servers: Seq::empty(),
                stream_relay_servers: Seq::empty(),
                udp_relay_servers: Seq::empty(),
                dns_servers: Seq::empty(),
            }),
    {
        let r = RelayConfig {
            stun_servers: Vec::new(),
            turn_servers: Vec::new(),
            stream_relay_servers: Vec::new(),
            udp_relay_servers: Vec::new(),
            dns_servers: Vec::new(),
        };
        assert(r.stun_servers.deep_view() =~= Seq::<Seq<char>>::empty());
        assert(r.turn_servers.deep_view() =~= Seq::<Seq<char>>::empty());
        assert(r.stream_relay_servers.deep_view() =~= Seq::<Seq<char>>::empty());
        assert(r.udp_relay_servers.deep_view() =~= Seq::<Seq<char>>::empty());
        assert(r.dns_servers.deep_view() =~= Seq::<Seq<char>>::empty());
        r
    }
}

/// The name of a node in the domain of its network.
pub open spec fn name_in_domain(name: Seq<char>, domain: Seq<char>) -> Seq<char> {
    name + seq!['.'] + domain
}

/// The name of a node in the domain of its network.
pub fn dns_name(name: &str, domain: &str) -> (r: String)
    ensures
        r@ == name_in_domain(name@, domain@),
{
    let mut out: String = name.to_owned();
    out.push('.');
    out.append(domain);
    assert(out@ =~= name_in_domain(name@, domain@));
    out
}

impl NetworkInfoView {
    /// What clients see of a network.
    pub open spec fn of(network: NetworkStateView) -> Self {
        NetworkInfoView {
            id: network.id,
            name: network.name,
            overlay_v4: network.overlay_v4,
            overlay_v6: network.overlay_v6,
            dns_domain: network.dns_domain,
            requires_approval: network.requires_approval,
            key_rotation_max_age_seconds: network.key_policy.max_age_seconds,
        }
    }
}

impl NetworkInfo {
    /// What clients see of a network.
    pub fn from_state(state: &NetworkState) -> (r: Self)
        ensures
            r.deep_view() == NetworkInfoView::of(state.deep_view()),
    {
        NetworkInfo {
            id: state.id.clone(),
            name: state.name.clone(),
            overlay_v4: state.overlay_v4.clone(),
            overlay_v6: state.overlay_v6.clone(),
            dns_domain: state.dns_domain.clone(),
            requires_approval: state.requires_approval,
            key_rotation_max_age_seconds: state.key_policy.max_age_seconds,
        }
    }
}

impl NodeInfoView {
    /// What the owner of a node sees of it.
    pub open spec fn of(
        node: NodeStateView,
        dns_domain: Seq<char>,
        approved: bool,
        key_rotation_required: bool,
    ) -> Self {
        NodeInfoView {
            id: node.id,
            name: node.name,
            dns_name: name_in_domain(node.name, dns_domain),
            ipv4: node.ipv4,
            ipv6: node.ipv6,
            wg_public_key: node.wg_public_key,
            machine_public_key: node.machine_public_key,
            endpoints: node.endpoints,
            tags: node.tags,
            routes: node.routes,
            last_seen: node.last_seen,
            approved,
            key_rotation_required,
            revoked: node.revoked_at is Some,
        }
    }
}

impl NodeInfo {
    /// What the owner of a node sees of it.
    pub fn from_state(
        node: &NodeState,
        dns_domain: &str,
        approved: bool,
        key_rotation_required: bool,
    ) -> (r: Self)
        ensures
            r.deep_view() == NodeInfoView::of(
                node.deep_view(),
                dns_domain@,
                approved,
                key_rotation_required,
            ),
    {
        NodeInfo {
            id: node.id.clone(),
            name: node.name.clone(),
            dns_name: dns_name(node.name.as_str(), dns_domain),
            ipv4: node.ipv4.clone(),
            ipv6: node.ipv6.clone(),
            wg_public_key: node.wg_public_key.clone(),
            machine_public_key: node.machine_public_key.clone(),
            endpoints: clone_list(&node.endpoints),
            tags: clone_list(&node.tags),
            routes: clone_list(&node.routes),
            last_seen: node.last_seen,
            approved,
            key_rotation_required,
            revoked: node.revoked_at.is_some(),
        }
    }
}

impl PeerInfoView {
    /// What its peers see of a node.
    pub open spec fn of(node: NodeStateView, dns_domain: Seq<char>) -> Self {
        PeerInfoView {
            id: node.id,
            name: node.name,
            dns_name: name_in_domain(node.name, dns_domain),
            ipv4: node.ipv4,
            ipv6: node.ipv6,
            wg_public_key: node.wg_public_key,
            endpoints: node.endpoints,
            tags: node.tags,
            routes: node.routes,
            last_seen: node.last_seen,
        }
    }
}

impl PeerInfo {
    /// What its peers see of a node.
    pub fn from_state(node: &NodeState, dns_domain: &str) -> (r: Self)
        ensures
            r.deep_view() == PeerInfoView::of(node.deep_view(), dns_domain@),
    {
        PeerInfo {
            id: node.id.clone(),
            name: node.name.clone(),
            dns_name: dns_name(node.name.as_str(), dns_domain),
            ipv4: node.ipv4.clone(),
            ipv6: node.ipv6.clone(),
            wg_public_key: node.wg_public_key.clone(),
            endpoints: clone_list(&node.endpoints),
            tags: clone_list(&node.tags),
            routes: clone_list(&node.routes),
            last_seen: node.last_seen,
        }
    }
}

impl EnrollmentTokenView {
    /// What administrators see of a token.
    pub open spec fn of(token: TokenStateView) -> Self {
        EnrollmentTokenView {
            token: token.token,
            expires_at: token.expires_at,
            uses_left: token.uses_left,
            tags: token.tags,
            revoked_at: token.revoked_at,
        }
    }
}

impl EnrollmentToken {
    /// What administrators see of a token.
    pub fn from_state(token: &TokenState) -> (r: Self)
        ensures
            r.deep_view() == EnrollmentTokenView::of(token.deep_view()),
    {
        EnrollmentToken {
            token: token.token.clone(),
            expires_at: token.expires_at,
            uses_left: token.uses_left,
            tags: clone_list(&token.tags),
            revoked_at: token.revoked_at,
        }
    }
}

} // verus!
