//! What each request brings about: what is known afterwards, what stays as it was, and what is
//! answered.
use vstd::prelude::*;

use crate::acl::{allowed, first_rule, law_first_rule, selects};
use crate::consistency::{consistent, network_sound};
use crate::enroll::{registered, RegisterDrawsView};
use crate::error::ApiError;
use crate::ids::{hex_bytes, hyphenated, lemma_hex_bytes};
use crate::model::{
    AclAction, CreateNetworkRequestView, CreateNetworkResponseView, CreateTokenRequestView,
    CreateTokenResponseView, EnrollmentTokenView, KeyPolicyResponseView, KeyRotationPolicyView,
    NetworkStateView, RegisterRequestView, TokenStateView, UpdateAclRequestView,
    UpdateAclResponseView,
};
use crate::net::{
    ipv4_net_of, ipv6_net_of, law_first_offset4, law_first_offset6, lemma_last_offset4, overlap4,
    overlap6, Ipv4Net, Ipv6Net,
};
use crate::netid::{blake3_of, derived_overlay_v4, derived_overlay_v6};
use crate::networks::{
    acl_told, acl_updated, key_policy_told, key_policy_updated, network_created, network_deleted,
    range_conflict, NetworkDrawsView,
};
use crate::state::{written, AuditStampView, StateView};
use crate::table::lemma_filter_subset;
use crate::text::trimmed;
use crate::tokens::{latest_first, token_created, token_revoked, tokens_of};

verus! {

/// Whether two states know the same networks.
pub open spec fn same_networks(a: StateView, b: StateView) -> bool {
    forall|k: Seq<char>| #[trigger] a.networks.find(k) == b.networks.find(k)
}

/// Whether two states know the same networks, but for one.
pub open spec fn other_networks_same(a: StateView, b: StateView, id: Seq<char>) -> bool {
    forall|k: Seq<char>| k != id ==> #[trigger] a.networks.find(k) == b.networks.find(k)
}

/// Whether two states know the same nodes.
pub open spec fn same_nodes(a: StateView, b: StateView) -> bool {
    forall|k: Seq<char>| #[trigger] a.nodes.find(k) == b.nodes.find(k)
}

/// Whether two states know the same nodes, but for one.
pub open spec fn other_nodes_same(a: StateView, b: StateView, id: Seq<char>) -> bool {
    forall|k: Seq<char>| k != id ==> #[trigger] a.nodes.find(k) == b.nodes.find(k)
}

/// Whether two states know the same tokens.
pub open spec fn same_tokens(a: StateView, b: StateView) -> bool {
    forall|k: Seq<char>| #[trigger] a.tokens.find(k) == b.tokens.find(k)
}

/// Whether two states know the same tokens, but for one.
pub open spec fn other_tokens_same(a: StateView, b: StateView, id: Seq<char>) -> bool {
    forall|k: Seq<char>| k != id ==> #[trigger] a.tokens.find(k) == b.tokens.find(k)
}

/// Whether an answer shows a token as it is kept.
pub open spec fn shows_token(shown: EnrollmentTokenView, token: TokenStateView) -> bool {
    &&& shown.token == token.token
    &&& shown.expires_at == token.expires_at
    &&& shown.uses_left == token.uses_left
    &&& shown.tags == token.tags
    &&& shown.revoked_at == token.revoked_at
}

/// A network that was made is known from then on as it was asked for, and nothing else changes but
/// for its first token. Whoever asked is shown the network as it is kept.
pub proof fn law_network_is_as_asked(
    state: StateView,
    req: CreateNetworkRequestView,
    draws: NetworkDrawsView,
)
    requires
        network_created(state, req, draws).1 is Ok,
        draws.id.len() == 16,
    ensures
        ({
            let after = network_created(state, req, draws).0;
            let shown = network_created(state, req, draws).1->Ok_0.network;
            let network = after.networks.at(shown.id);
            &&& !state.networks.has(shown.id)
            &&& after.networks.has(shown.id)
            &&& network.id == shown.id
            &&& network.name == req.name
            &&& req.overlay_v4 is Some ==> network.overlay_v4 == req.overlay_v4->0
            &&& req.overlay_v6 is Some ==> network.overlay_v6 == req.overlay_v6->0
            &&& req.overlay_v4 is None ==> network.overlay_v4 == derived_overlay_v4(
                blake3_of(draws.id),
            )
            &&& req.overlay_v6 is None ==> network.overlay_v6 == derived_overlay_v6(
                blake3_of(draws.id),
            )
            &&& req.dns_domain is Some ==> network.dns_domain == req.dns_domain->0
            &&& req.dns_domain is None ==> network.dns_domain == "net-"@ + network.id.take(8)
                + ".lightscale"@
            &&& network.requires_approval <==> req.requires_approval == Some(true)
            &&& network.key_policy.max_age_seconds == req.key_rotation_max_age_seconds
            &&& network.acl.rules.len() == 0
            &&& network.acl.default_action == AclAction::Allow
            &&& network.created_at == draws.now
            &&& shown.name == network.name
            &&& shown.overlay_v4 == network.overlay_v4
            &&& shown.overlay_v6 == network.overlay_v6
            &&& shown.dns_domain == network.dns_domain
            &&& shown.requires_approval == network.requires_approval
            &&& shown.key_rotation_max_age_seconds == network.key_policy.max_age_seconds
            &&& other_networks_same(state, after, shown.id)
            &&& same_nodes(state, after)
        }),
{
    let id = draws.id;
    lemma_hex_bytes(id.subrange(0, 4));
    assert(hyphenated(id).take(8) =~= hex_bytes(id.subrange(0, 4)));
}

/// The first node of a network gets the address ten behind the first of the range, in both ranges,
/// where the range reaches as far, and the address one behind it otherwise.
pub proof fn law_first_addresses(
    state: StateView,
    req: CreateNetworkRequestView,
    draws: NetworkDrawsView,
)
    requires
        network_created(state, req, draws).1 is Ok,
    ensures
        ({
            let after = network_created(state, req, draws).0;
            let network = after.networks.at(network_created(state, req, draws).1->Ok_0.network.id);
            let v4 = ipv4_net_of(network.overlay_v4);
            let v6 = ipv6_net_of(network.overlay_v6);
            &&& v4 is Some && v6 is Some
            &&& (v4->0).prefix_len <= 30
            &&& network.next_ipv4 == (if (v4->0).prefix_len <= 28 {
                10u32
            } else {
                1u32
            })
            &&& network.next_ipv6 == (if (v6->0).prefix_len <= 124 {
                10u128
            } else if (v6->0).prefix_len <= 127 {
                1u128
            } else {
                0u128
            })
        }),
{
    let network = network_created(state, req, draws).0.networks.at(
        network_created(state, req, draws).1->Ok_0.network.id,
    );
    law_first_offset4(ipv4_net_of(network.overlay_v4)->0);
    law_first_offset6(ipv6_net_of(network.overlay_v6)->0);
}

/// The token that comes with a new network is known under its secret as it was asked for, with one
/// use and no tags where that was left open, and the answer shows it. Without a lifetime there is
/// none.
pub proof fn law_bootstrap_token_is_as_asked(
    state: StateView,
    req: CreateNetworkRequestView,
    draws: NetworkDrawsView,
)
    requires
        network_created(state, req, draws).1 is Ok,
    ensures
        ({
            let after = network_created(state, req, draws).0;
            let answer = network_created(state, req, draws).1->Ok_0;
            let token = after.tokens.at(draws.secret);
            &&& answer.bootstrap_token is Some <==> req.bootstrap_token_ttl_seconds is Some
            &&& req.bootstrap_token_ttl_seconds is None ==> same_tokens(state, after)
            &&& req.bootstrap_token_ttl_seconds matches Some(ttl) ==> {
                &&& ttl > 0
                &&& after.tokens.has(draws.secret)
                &&& token.token == draws.secret
                &&& token.network_id == answer.network.id
                &&& req.bootstrap_token_uses is Some ==> token.uses_left
                    == req.bootstrap_token_uses->0
                &&& req.bootstrap_token_uses is None ==> token.uses_left == 1
                &&& token.uses_left > 0
                &&& req.bootstrap_token_tags is Some ==> token.tags == req.bootstrap_token_tags->0
                &&& req.bootstrap_token_tags is None ==> token.tags.len() == 0
                &&& draws.token_now + ttl <= i64::MAX ==> token.expires_at == draws.token_now + ttl
                &&& token.owner_user_id is None
                &&& token.owner_email is None
                &&& token.owner_is_admin
                &&& token.revoked_at is None
                &&& shows_token(answer.bootstrap_token->0, token)
                &&& other_tokens_same(state, after, draws.secret)
            }
        }),
{
}

/// A network is made wherever its ranges can be read, hold addresses for nodes and lie apart from
/// those of the networks there are, and its first token, if one is asked for, has time and uses.
pub proof fn law_network_can_be_made(
    state: StateView,
    req: CreateNetworkRequestView,
    draws: NetworkDrawsView,
    v4: Ipv4Net,
    v6: Ipv6Net,
)
    requires
        consistent(state),
        !state.networks.has(hyphenated(draws.id)),
        req.overlay_v4 matches Some(text) && ipv4_net_of(text) == Some(v4),
        req.overlay_v6 matches Some(text) && ipv6_net_of(text) == Some(v6),
        v4.prefix_len <= 30,
        v6.prefix_len <= 128,
        forall|k: Seq<char>, ip: int| #[trigger]
            state.networks.has(k) && #[trigger] v4.has(ip) ==> !ipv4_net_of(
                state.networks.at(k).overlay_v4,
            )->0.has(ip),
        forall|k: Seq<char>, ip: int| #[trigger]
            state.networks.has(k) && #[trigger] v6.has(ip) ==> !ipv6_net_of(
                state.networks.at(k).overlay_v6,
            )->0.has(ip),
        req.bootstrap_token_ttl_seconds matches Some(ttl) ==> ttl > 0
            && req.bootstrap_token_uses != Some(0u32),
    ensures
        network_created(state, req, draws).1 is Ok,
{
    law_first_offset4(v4);
    let networks = state.networks.values();
    if range_conflict(networks, v4, v6) is Some {
        lemma_readable(state);
        lemma_conflict_is_found(networks, v4, v6);
        let j = choose|j: int|
            0 <= j < networks.len() && (overlap4(
                v4,
                ipv4_net_of((#[trigger] networks[j]).overlay_v4)->0,
            ) || overlap6(v6, ipv6_net_of(networks[j].overlay_v6)->0));
        let k = state.networks.keys[j];
        assert(state.networks.has(k) && networks[j] == state.networks.at(k));
        lemma_shared_addresses(v4, ipv4_net_of(networks[j].overlay_v4)->0, v6, ipv6_net_of(
            networks[j].overlay_v6,
        )->0);
    }
}

/// The ranges of the networks of a consistent state can be read.
proof fn lemma_readable(state: StateView)
    requires
        consistent(state),
    ensures
        forall|j: int|
            0 <= j < state.networks.values().len() ==> {
                let network = #[trigger] state.networks.values()[j];
                &&& ipv4_net_of(network.overlay_v4) is Some
                &&& ipv6_net_of(network.overlay_v6) is Some
                &&& ipv4_net_of(network.overlay_v4)->0.wf()
                &&& ipv6_net_of(network.overlay_v6)->0.wf()
                &&& state.networks.has(state.networks.keys[j])
                &&& network == state.networks.at(state.networks.keys[j])
            },
{
    assert forall|j: int| 0 <= j < state.networks.values().len() implies ({
        let network = #[trigger] state.networks.values()[j];
        &&& ipv4_net_of(network.overlay_v4) is Some
        &&& ipv6_net_of(network.overlay_v6) is Some
        &&& ipv4_net_of(network.overlay_v4)->0.wf()
        &&& ipv6_net_of(network.overlay_v6)->0.wf()
        &&& state.networks.has(state.networks.keys[j])
        &&& network == state.networks.at(state.networks.keys[j])
    }) by {
        state.networks.lemma_index(j);
        assert(network_sound(state.networks.keys[j], state.networks.values()[j]));
    }
}

/// Ranges that overlap share an address.
proof fn lemma_shared_addresses(a4: Ipv4Net, b4: Ipv4Net, a6: Ipv6Net, b6: Ipv6Net)
    requires
        a4.wf(),
        b4.wf(),
        a6.wf(),
        b6.wf(),
    ensures
        overlap4(a4, b4) <==> exists|ip: int| #[trigger] a4.has(ip) && b4.has(ip),
        overlap6(a6, b6) <==> exists|ip: int| #[trigger] a6.has(ip) && b6.has(ip),
{
    a4.lemma_range();
    b4.lemma_range();
    a6.lemma_range();
    b6.lemma_range();
    if overlap4(a4, b4) {
        let ip = if a4.has(b4.first()) {
            b4.first()
        } else {
            a4.first()
        };
        assert(a4.has(ip) && b4.has(ip));
    }
    if overlap6(a6, b6) {
        let ip = if a6.has(b6.first()) {
            b6.first()
        } else {
            a6.first()
        };
        assert(a6.has(ip) && b6.has(ip));
    }
}

/// Ranges that cannot be had overlap with those of a network, and the refusal says with which.
proof fn lemma_conflict_is_found(networks: Seq<NetworkStateView>, v4: Ipv4Net, v6: Ipv6Net)
    requires
        forall|j: int|
            0 <= j < networks.len() ==> ipv4_net_of((#[trigger] networks[j]).overlay_v4) is Some
                && ipv6_net_of(networks[j].overlay_v6) is Some,
    ensures
        range_conflict(networks, v4, v6) is Some <==> exists|j: int|
            0 <= j < networks.len() && (overlap4(
                v4,
                ipv4_net_of((#[trigger] networks[j]).overlay_v4)->0,
            ) || overlap6(v6, ipv6_net_of(networks[j].overlay_v6)->0)),
        range_conflict(networks, v4, v6) matches Some(refusal) ==> {
            ||| refusal == ApiError::Conflict("overlay_v4 overlaps existing network") && exists|j: int|
                0 <= j < networks.len() && overlap4(
                    v4,
                    ipv4_net_of((#[trigger] networks[j]).overlay_v4)->0,
                )
            ||| refusal == ApiError::Conflict("overlay_v6 overlaps existing network") && exists|j: int|
                0 <= j < networks.len() && overlap6(
                    v6,
                    ipv6_net_of((#[trigger] networks[j]).overlay_v6)->0,
                )
        },
    decreases networks.len(),
{
    if networks.len() > 0 {
        let rest = networks.drop_first();
        assert forall|j: int| 0 <= j < rest.len() implies #[trigger] rest[j] == networks[j + 1] by {
        }
        lemma_conflict_is_found(rest, v4, v6);
        let first = networks[0];
        if !overlap4(v4, ipv4_net_of(first.overlay_v4)->0) && !overlap6(
            v6,
            ipv6_net_of(first.overlay_v6)->0,
        ) {
            assert forall|j: int| 0 < j < networks.len() implies #[trigger] networks[j] == rest[j
                - 1] by {
            }
            if range_conflict(rest, v4, v6) is Some {
                let j = choose|j: int|
                    0 <= j < rest.len() && (overlap4(
                        v4,
                        ipv4_net_of((#[trigger] rest[j]).overlay_v4)->0,
                    ) || overlap6(v6, ipv6_net_of(rest[j].overlay_v6)->0));
                assert(networks[j + 1] == rest[j]);
            }
            if exists|j: int|
                0 <= j < rest.len() && overlap4(
                    v4,
                    ipv4_net_of((#[trigger] rest[j]).overlay_v4)->0,
                ) {
                let j = choose|j: int|
                    0 <= j < rest.len() && overlap4(
                        v4,
                        ipv4_net_of((#[trigger] rest[j]).overlay_v4)->0,
                    );
                assert(networks[j + 1] == rest[j]);
            }
            if exists|j: int|
                0 <= j < rest.len() && overlap6(
                    v6,
                    ipv6_net_of((#[trigger] rest[j]).overlay_v6)->0,
                ) {
                let j = choose|j: int|
                    0 <= j < rest.len() && overlap6(
                        v6,
                        ipv6_net_of((#[trigger] rest[j]).overlay_v6)->0,
                    );
                assert(networks[j + 1] == rest[j]);
            }
        } else {
            assert(networks[0] == first);
        }
    }
}

/// A network whose IPv4 range shares an address with that of a network there is, and whose IPv6
/// range shares none, is refused for the IPv4 range, and the other way round.
pub proof fn law_shared_ranges_are_refused(
    state: StateView,
    req: CreateNetworkRequestView,
    draws: NetworkDrawsView,
    v4: Ipv4Net,
    v6: Ipv6Net,
    id: Seq<char>,
    ip: int,
)
    requires
        consistent(state),
        !state.networks.has(hyphenated(draws.id)),
        req.overlay_v4 matches Some(text) && ipv4_net_of(text) == Some(v4),
        req.overlay_v6 matches Some(text) && ipv6_net_of(text) == Some(v6),
        v4.prefix_len <= 30,
        v6.prefix_len <= 128,
        state.networks.has(id),
    ensures
        v4.has(ip) && ipv4_net_of(state.networks.at(id).overlay_v4)->0.has(ip) ==> {
            &&& network_created(state, req, draws).0 == state
            &&& network_created(state, req, draws).1 is Err
            &&& (forall|k: Seq<char>, x: int| #[trigger]
                state.networks.has(k) && #[trigger] v6.has(x) ==> !ipv6_net_of(
                    state.networks.at(k).overlay_v6,
                )->0.has(x)) ==> network_created(state, req, draws).1 == Err::<
                CreateNetworkResponseView,
                ApiError,
            >(ApiError::Conflict("overlay_v4 overlaps existing network"))
        },
        v6.has(ip) && ipv6_net_of(state.networks.at(id).overlay_v6)->0.has(ip) ==> {
            &&& network_created(state, req, draws).0 == state
            &&& network_created(state, req, draws).1 is Err
            &&& (forall|k: Seq<char>, x: int| #[trigger]
                state.networks.has(k) && #[trigger] v4.has(x) ==> !ipv4_net_of(
                    state.networks.at(k).overlay_v4,
                )->0.has(x)) ==> network_created(state, req, draws).1 == Err::<
                CreateNetworkResponseView,
                ApiError,
            >(ApiError::Conflict("overlay_v6 overlaps existing network"))
        },
{
    law_first_offset4(v4);
    let networks = state.networks.values();
    lemma_readable(state);
    lemma_conflict_is_found(networks, v4, v6);
    assert(state.networks.keys.contains(id));
    let i = state.networks.keys.index_of(id);
    assert(networks[i] == state.networks.at(id));
    assert forall|j: int| 0 <= j < networks.len() implies ({
        let other4 = ipv4_net_of((#[trigger] networks[j]).overlay_v4)->0;
        let other6 = ipv6_net_of(networks[j].overlay_v6)->0;
        &&& overlap4(v4, other4) <==> exists|x: int| #[trigger] v4.has(x) && other4.has(x)
        &&& overlap6(v6, other6) <==> exists|x: int| #[trigger] v6.has(x) && other6.has(x)
        &&& state.networks.has(state.networks.keys[j])
    }) by {
        lemma_shared_addresses(v4, ipv4_net_of(networks[j].overlay_v4)->0, v6, ipv6_net_of(
            networks[j].overlay_v6,
        )->0);
    }
}

/// A node that joins a network straight after it was made is approved at once exactly where the
/// network was not made to require approval.
pub proof fn law_new_network_decides_approval(
    state: StateView,
    req: CreateNetworkRequestView,
    draws: NetworkDrawsView,
    join: RegisterRequestView,
    join_draws: RegisterDrawsView,
)
    requires
        network_created(state, req, draws).1 is Ok,
        ({
            let made = network_created(state, req, draws);
            &&& made.0.tokens.at(join.token).network_id == made.1->Ok_0.network.id
            &&& registered(made.0, join, join_draws).1 is Ok
        }),
    ensures
        ({
            let made = network_created(state, req, draws).0;
            let node = registered(made, join, join_draws).0.nodes.at(
                registered(made, join, join_draws).1->Ok_0,
            );
            node.approved <==> req.requires_approval != Some(true)
        }),
{
}

/// A network that was deleted is not known any more, and neither are its tokens. Everything else
/// stays.
pub proof fn law_deleting_a_network(
    state: StateView,
    network_id: Seq<char>,
    stamp: AuditStampView,
)
    requires
        state.networks.has(network_id),
        forall|k: Seq<char>| #[trigger]
            state.nodes.has(k) ==> state.nodes.at(k).network_id != network_id,
    ensures
        ({
            let after = network_deleted(state, network_id, stamp).0;
            &&& network_deleted(state, network_id, stamp).1 is Ok
            &&& !after.networks.has(network_id)
            &&& other_networks_same(state, after, network_id)
            &&& same_nodes(state, after)
            &&& forall|k: Seq<char>| #[trigger]
                after.tokens.find(k) == (if state.tokens.has(k) && state.tokens.at(k).network_id
                    != network_id {
                    state.tokens.find(k)
                } else {
                    None
                })
        }),
{
}

/// After an update of access rules the network has the policy that was sent, rules and default, and
/// the answer tells it. Nothing else changes.
pub proof fn law_acl_is_as_sent(
    state: StateView,
    network_id: Seq<char>,
    req: UpdateAclRequestView,
    stamp: AuditStampView,
)
    ensures
        ({
            let (after, answer) = acl_updated(state, network_id, req, stamp);
            let before = state.networks.at(network_id);
            let network = after.networks.at(network_id);
            &&& answer is Ok <==> state.networks.has(network_id)
            &&& answer is Ok ==> {
                &&& after.networks.has(network_id)
                &&& network.acl == req.policy
                &&& network.acl.rules == req.policy.rules
                &&& network.acl.default_action == req.policy.default_action
                &&& network == (NetworkStateView { acl: network.acl, ..before })
                &&& answer == Ok::<UpdateAclResponseView, ApiError>(
                    UpdateAclResponseView { policy: req.policy },
                )
            }
            &&& answer is Err ==> after == state && answer == Err::<UpdateAclResponseView, ApiError>(
                ApiError::NotFound("network"),
            )
            &&& other_networks_same(state, after, network_id)
            &&& same_nodes(state, after)
            &&& same_tokens(state, after)
        }),
{
}

/// After an update of access rules, whether one node of the network sees another is decided by the
/// first of the rules sent that is about both of them, and by the default that was sent where there
/// is none.
pub proof fn law_sent_acl_decides(
    state: StateView,
    network_id: Seq<char>,
    req: UpdateAclRequestView,
    stamp: AuditStampView,
    src: Seq<char>,
    dst: Seq<char>,
    i: int,
)
    requires
        state.networks.has(network_id),
        0 <= i <= req.policy.rules.len(),
        ({
            let about = |j: int|
                selects(req.policy.rules[j].src, state.nodes.at(src)) && selects(
                    req.policy.rules[j].dst,
                    state.nodes.at(dst),
                );
            &&& forall|j: int| 0 <= j < i ==> !#[trigger] about(j)
            &&& i < req.policy.rules.len() ==> about(i)
        }),
    ensures
        ({
            let after = acl_updated(state, network_id, req, stamp).0;
            allowed(after.networks.at(network_id).acl, after.nodes.at(src), after.nodes.at(dst))
                <==> (if i < req.policy.rules.len() {
                req.policy.rules[i].action
            } else {
                req.policy.default_action
            }) == AclAction::Allow
        }),
{
    let about = |j: int|
        selects(req.policy.rules[j].src, state.nodes.at(src)) && selects(
            req.policy.rules[j].dst,
            state.nodes.at(dst),
        );
    law_first_rule(req.policy, state.nodes.at(src), state.nodes.at(dst));
    let place = first_rule(req.policy, state.nodes.at(src), state.nodes.at(dst));
    if place < i {
        assert(!about(place));
    }
    if i < place {
        assert(about(i));
    }
}

/// After an update of a key policy the network has the policy that was sent, and the answer tells
/// it. Nothing else changes.
pub proof fn law_key_policy_is_as_sent(
    state: StateView,
    network_id: Seq<char>,
    req: KeyRotationPolicyView,
    stamp: AuditStampView,
)
    ensures
        ({
            let (after, answer) = key_policy_updated(state, network_id, req, stamp);
            let before = state.networks.at(network_id);
            let network = after.networks.at(network_id);
            &&& answer is Ok <==> state.networks.has(network_id)
            &&& answer is Ok ==> {
                &&& after.networks.has(network_id)
                &&& network.key_policy.max_age_seconds == req.max_age_seconds
                &&& network == (NetworkStateView { key_policy: network.key_policy, ..before })
                &&& answer->Ok_0.policy.max_age_seconds == req.max_age_seconds
            }
            &&& answer is Err ==> after == state && answer == Err::<KeyPolicyResponseView, ApiError>(
                ApiError::NotFound("network"),
            )
            &&& other_networks_same(state, after, network_id)
            &&& same_nodes(state, after)
            &&& same_tokens(state, after)
        }),
{
}

/// A token that was made is known under its secret as it was asked for, and the answer shows it. It
/// is made wherever the network is known and it has time and uses. Nothing else changes.
pub proof fn law_token_is_as_asked(
    state: StateView,
    network_id: Seq<char>,
    req: CreateTokenRequestView,
    secret: Seq<char>,
    now: i64,
    stamp: AuditStampView,
)
    ensures
        ({
            let (after, answer) = token_created(state, network_id, req, secret, now, stamp);
            let token = after.tokens.at(secret);
            let owner = |given: Option<Seq<char>>|
                if given is Some && trimmed(given->0).len() > 0 {
                    Some(trimmed(given->0))
                } else {
                    None
                };
            &&& answer is Ok <==> state.networks.has(network_id) && req.ttl_seconds > 0 && req.uses
                > 0
            &&& answer is Ok ==> {
                &&& after.tokens.has(secret)
                &&& token.token == secret
                &&& token.network_id == state.networks.at(network_id).id
                &&& token.uses_left == req.uses
                &&& token.tags == req.tags
                &&& now + req.ttl_seconds <= i64::MAX ==> token.expires_at == now + req.ttl_seconds
                &&& token.owner_user_id == owner(req.owner_user_id)
                &&& token.owner_email == owner(req.owner_email)
                &&& token.owner_is_admin <==> req.owner_is_admin != Some(false)
                &&& token.revoked_at is None
                &&& shows_token(answer->Ok_0.token, token)
            }
            &&& answer is Err ==> after == state && answer == Err::<
                CreateTokenResponseView,
                ApiError,
            >(
                if state.networks.has(network_id) {
                    ApiError::BadRequest("ttl_seconds and uses must be > 0")
                } else {
                    ApiError::NotFound("network")
                },
            )
            &&& same_networks(state, after)
            &&& same_nodes(state, after)
            &&& other_tokens_same(state, after, secret)
        }),
{
}

/// A token that is revoked is kept as it was but for the time of its revocation, and the answer
/// shows it. Nothing else changes.
pub proof fn law_revoking_a_token(
    state: StateView,
    token_id: Seq<char>,
    now: i64,
    stamp: AuditStampView,
)
    ensures
        ({
            let (after, answer) = token_revoked(state, token_id, now, stamp);
            let before = state.tokens.at(token_id);
            let token = after.tokens.at(token_id);
            &&& answer is Ok <==> state.tokens.has(token_id)
            &&& answer is Ok ==> {
                &&& after.tokens.has(token_id)
                &&& token.revoked_at == Some(now)
                &&& token == (TokenStateView { revoked_at: token.revoked_at, ..before })
                &&& shows_token(answer->Ok_0, token)
            }
            &&& answer is Err ==> after == state && answer == Err::<EnrollmentTokenView, ApiError>(
                ApiError::NotFound("token"),
            )
            &&& same_networks(state, after)
            &&& same_nodes(state, after)
            &&& other_tokens_same(state, after, token_id)
        }),
{
}

/// The tokens of a network are those that let nodes join it, each shown as it is kept.
pub proof fn law_tokens_listed(state: StateView, network_id: Seq<char>, shown: EnrollmentTokenView)
    requires
        state.wf(),
    ensures
        tokens_of(state.tokens, network_id).contains(shown) <==> exists|k: Seq<char>|
            {
                &&& #[trigger] state.tokens.has(k)
                &&& state.tokens.at(k).network_id == network_id
                &&& shows_token(shown, state.tokens.at(k))
            },
{
    broadcast use vstd::seq_lib::group_filter_ensures;

    let tokens = state.tokens.values();
    let p = |token: TokenStateView| token.network_id == network_id;
    let found = tokens.filter(p);
    let listed = tokens_of(state.tokens, network_id);
    if listed.contains(shown) {
        let i = listed.index_of(shown);
        assert(found.contains(found[i]));
        lemma_filter_subset(tokens, p, found[i]);
        let j = tokens.index_of(found[i]);
        state.tokens.lemma_index(j);
        assert(state.tokens.has(state.tokens.keys[j]));
    }
    if exists|k: Seq<char>|
        {
            &&& #[trigger] state.tokens.has(k)
            &&& state.tokens.at(k).network_id == network_id
            &&& shows_token(shown, state.tokens.at(k))
        } {
        let k = choose|k: Seq<char>|
            {
                &&& #[trigger] state.tokens.has(k)
                &&& state.tokens.at(k).network_id == network_id
                &&& shows_token(shown, state.tokens.at(k))
            };
        assert(state.tokens.keys.contains(k));
        let j = state.tokens.keys.index_of(k);
        assert(tokens[j] == state.tokens.at(k));
        assert(found.contains(tokens[j]));
        let i = found.index_of(tokens[j]);
        assert(listed[i] =~= shown);
        assert(listed.contains(shown));
    }
}

/// Whoever asks for the access rules of a network after an update is told the policy that was sent,
/// and for those of any other network, what was told before.
pub proof fn law_acl_is_read_back(
    state: StateView,
    network_id: Seq<char>,
    req: UpdateAclRequestView,
    stamp: AuditStampView,
    other: Seq<char>,
)
    requires
        state.networks.has(network_id),
        other != network_id,
    ensures
        ({
            let after = acl_updated(state, network_id, req, stamp).0;
            &&& acl_told(after, network_id) is Ok
            &&& acl_told(after, network_id)->Ok_0.rules == req.policy.rules
            &&& acl_told(after, network_id)->Ok_0.default_action == req.policy.default_action
            &&& acl_told(after, other) == acl_told(state, other)
            &&& acl_told(state, other) is Ok <==> state.networks.has(other)
        }),
{
}

/// Whoever asks for the key policy of a network after an update is told the policy that was sent,
/// and for that of any other network, what was told before.
pub proof fn law_key_policy_is_read_back(
    state: StateView,
    network_id: Seq<char>,
    req: KeyRotationPolicyView,
    stamp: AuditStampView,
    other: Seq<char>,
)
    requires
        state.networks.has(network_id),
        other != network_id,
    ensures
        ({
            let after = key_policy_updated(state, network_id, req, stamp).0;
            &&& key_policy_told(after, network_id) is Ok
            &&& key_policy_told(after, network_id)->Ok_0.policy.max_age_seconds
                == req.max_age_seconds
            &&& key_policy_told(after, other) == key_policy_told(state, other)
            &&& key_policy_told(state, other) is Ok <==> state.networks.has(other)
        }),
{
}

/// A network is refused for what cannot be had: a range that cannot be read, a range without
/// addresses for nodes, an identifier that is known, or a first token without time or uses.
pub proof fn law_network_refusals(
    state: StateView,
    req: CreateNetworkRequestView,
    draws: NetworkDrawsView,
)
    ensures
        ({
            let answer = network_created(state, req, draws).1;
            let v4 = ipv4_net_of(req.overlay_v4->0);
            let v6 = ipv6_net_of(req.overlay_v6->0);
            &&& req.overlay_v4 is Some && v4 is None ==> answer == Err::<
                CreateNetworkResponseView,
                ApiError,
            >(ApiError::BadRequest("invalid overlay_v4 cidr"))
            &&& req.overlay_v4 is Some && v4 is Some && req.overlay_v6 is Some && v6 is None ==> answer
                == Err::<CreateNetworkResponseView, ApiError>(
                ApiError::BadRequest("invalid overlay_v6 cidr"),
            )
            &&& req.overlay_v4 is Some && v4 is Some && req.overlay_v6 is Some && v6 is Some && (
            v4->0).prefix_len > 30 ==> answer == Err::<CreateNetworkResponseView, ApiError>(
                ApiError::BadRequest("overlay_v4 must provide usable host addresses"),
            )
            &&& state.networks.has(hyphenated(draws.id)) ==> answer is Err
            &&& req.bootstrap_token_ttl_seconds == Some(0u64) ==> answer is Err
            &&& req.bootstrap_token_ttl_seconds is Some && req.bootstrap_token_uses == Some(0u32)
                ==> answer is Err
        }),
{
    if let Some(text) = req.overlay_v4 {
        lemma_last_offset4(text);
        if let Some(v4) = ipv4_net_of(text) {
            law_first_offset4(v4);
        }
    }
}

/// A request that succeeds adds one to the revision and changes nothing else; one that is refused
/// does not. Either way the answer stays.
pub proof fn law_written<R>(state: StateView, answer: Result<R, ApiError>)
    ensures
        written((state, answer)).1 == answer,
        answer is Err ==> written((state, answer)).0 == state,
        answer is Ok ==> {
            let after = written((state, answer)).0;
            &&& after == (StateView { revision: after.revision, ..state })
            &&& state.revision < u64::MAX ==> after.revision == state.revision + 1
            &&& state.revision == u64::MAX ==> after.revision == u64::MAX
        },
{
}

/// Tokens are listed by when they expire, the latest first.
pub proof fn law_latest_first(tokens: Seq<EnrollmentTokenView>, i: int, j: int)
    requires
        latest_first(tokens),
        0 <= i <= j < tokens.len(),
    ensures
        tokens[i].expires_at >= tokens[j].expires_at,
{
}

} // verus!
