//! What holds over any number of operations.
use vstd::prelude::*;

use crate::enroll::{
    approval_path, approval_ttl, node_approved, normalized_name, registered, url_registered,
    RegisterDrawsView, RegisterUrlDrawsView,
};
use crate::error::ApiError;
use crate::ids::hyphenated;
use crate::keys::{expiry, in_good_standing};
use crate::lifecycle::{law_token_is_spent, uses_of};
use crate::model::{
    ApproveNodeResponseView, KeyRotationPolicyView, NodeStateView, RegisterRequestView,
    RegisterUrlRequestView, TokenStateView,
};
use crate::operations::{
    about_node, law_log_only_grows, law_other_nodes_stay, law_revision_counts_writes,
    lemma_counted, performed, uncounted, Operation,
};
use crate::state::{AuditStampView, StateView};

verus! {

/// The state after some operations, one after the other.
pub open spec fn after_all(state: StateView, ops: Seq<Operation>) -> StateView
    decreases ops.len(),
{
    if ops.len() == 0 {
        state
    } else {
        performed(after_all(state, ops.drop_last()), ops.last()).0
    }
}

/// The state in which the operation at place `i` is performed.
pub open spec fn before_step(state: StateView, ops: Seq<Operation>, i: int) -> StateView {
    after_all(state, ops.take(i))
}

/// Leaving out the last operation changes nothing before it.
proof fn lemma_front(state: StateView, ops: Seq<Operation>, i: int)
    requires
        0 <= i < ops.len(),
    ensures
        i < ops.len() - 1 ==> before_step(state, ops.drop_last(), i) == before_step(state, ops, i)
            && ops.drop_last()[i] == ops[i],
        i == ops.len() - 1 ==> before_step(state, ops, i) == after_all(state, ops.drop_last()),
{
    if i < ops.len() - 1 {
        assert(ops.drop_last().take(i) =~= ops.take(i));
    } else {
        assert(ops.take(i) =~= ops.drop_last());
    }
}

/// Whether an operation succeeds.
pub open spec fn succeeds(state: StateView, op: Operation) -> bool {
    performed(state, op).1 is None
}

/// Whether an operation makes a token under this secret.
pub open spec fn makes_token(state: StateView, op: Operation, token: Seq<char>) -> bool {
    succeeds(state, op) && match op {
        Operation::CreateToken { secret, .. } => secret == token,
        Operation::CreateNetwork { req, draws } => req.bootstrap_token_ttl_seconds is Some
            && draws.secret == token,
        _ => false,
    }
}

/// Whether an operation deletes a network.
pub open spec fn deletes_network(state: StateView, op: Operation, network_id: Seq<char>) -> bool {
    succeeds(state, op) && match op {
        Operation::DeleteNetwork { network_id: id, .. } => id == network_id,
        _ => false,
    }
}

/// Whether an operation is to make a network under this identifier.
pub open spec fn draws_network(op: Operation, network_id: Seq<char>) -> bool {
    match op {
        Operation::CreateNetwork { draws, .. } => hyphenated(draws.id) == network_id,
        _ => false,
    }
}

/// Whether an operation lets a node join with a token.
pub open spec fn joins_with(state: StateView, op: Operation, token: Seq<char>) -> bool {
    succeeds(state, op) && match op {
        Operation::Register { req, .. } => req.token == token,
        _ => false,
    }
}

/// Whether an operation deletes a node, or lets another take its place.
pub open spec fn ends_node(state: StateView, op: Operation, node_id: Seq<char>) -> bool {
    succeeds(state, op) && match op {
        Operation::DeleteNode { node_id: id, .. } => id == node_id,
        Operation::Register { draws, .. } => draws.node_id == node_id,
        Operation::RegisterUrl { draws, .. } => draws.node_id == node_id,
        _ => false,
    }
}

/// Whether an operation approves a node.
pub open spec fn approves_node(state: StateView, op: Operation, node_id: Seq<char>) -> bool {
    succeeds(state, op) && match op {
        Operation::Approve { node_id: id, .. } => id == node_id,
        _ => false,
    }
}

/// Whether an operation gives a node new keys.
pub open spec fn renews_keys(state: StateView, op: Operation, node_id: Seq<char>) -> bool {
    succeeds(state, op) && match op {
        Operation::RotateKeys { node_id: id, .. } => id == node_id,
        _ => false,
    }
}

/// Operations on nodes, rules and policies do not touch tokens.
proof fn lemma_tokens_untouched(state: StateView, op: Operation)
    requires
        op is UpdateAcl || op is UpdateKeyPolicy || op is RegisterUrl || op is Approve
            || op is UpdateNode || op is RotateKeys || op is RevokeNode || op is DeleteNode
            || op is Heartbeat,
    ensures
        performed(state, op).0.tokens == state.tokens,
{
    lemma_counted(state, op);
}

/// What an operation that does not make a token leaves of it: it is gone with its network, or with
/// its last use; it stays as it is otherwise, but for its uses and for being revoked.
proof fn lemma_token_step(state: StateView, op: Operation, token: Seq<char>)
    requires
        !makes_token(state, op, token),
    ensures
        ({
            let after = performed(state, op).0;
            let was = state.tokens.at(token);
            let is = after.tokens.at(token);
            &&& !state.tokens.has(token) ==> !after.tokens.has(token)
            &&& state.tokens.has(token) && after.tokens.has(token) ==> {
                &&& is == (TokenStateView {
                    uses_left: is.uses_left,
                    revoked_at: is.revoked_at,
                    ..was
                })
                &&& was.revoked_at is Some ==> is.revoked_at is Some
            }
            &&& uses_of(after, token) + (if joins_with(state, op, token) {
                1int
            } else {
                0int
            }) <= uses_of(state, token)
            &&& state.tokens.has(token) && !deletes_network(state, op, was.network_id)
                && !joins_with(state, op, token) ==> after.tokens.has(token)
        }),
{
    lemma_counted(state, op);
    match op {
        Operation::CreateNetwork { req, draws } => {},
        Operation::DeleteNetwork { network_id, stamp } => {},
        Operation::CreateToken { network_id, req, secret, now, stamp } => {},
        Operation::RevokeToken { token_id, now, stamp } => {},
        Operation::Register { req, draws } => {
            if succeeds(state, op) {
                law_token_is_spent(state, req, draws);
            }
        },
        _ => {
            lemma_tokens_untouched(state, op);
        },
    }
}

/// A token that is revoked does not let nodes join.
proof fn lemma_revoked_token_step(state: StateView, op: Operation, token: Seq<char>)
    requires
        state.tokens.has(token),
        state.tokens.at(token).revoked_at is Some,
    ensures
        !joins_with(state, op, token),
{
}

/// What is left of a revoked token.
proof fn lemma_revoked_token_history(start: StateView, ops: Seq<Operation>, token: Seq<char>)
    requires
        start.tokens.has(token),
        start.tokens.at(token).revoked_at is Some,
        forall|i: int|
            0 <= i < ops.len() ==> !makes_token(
                before_step(start, ops, i),
                #[trigger] ops[i],
                token,
            ),
    ensures
        ({
            let after = after_all(start, ops);
            let was = start.tokens.at(token);
            let is = after.tokens.at(token);
            &&& after.tokens.has(token) ==> is.revoked_at is Some && is.expires_at
                == was.expires_at && is.network_id == was.network_id
            &&& (forall|i: int|
                0 <= i < ops.len() ==> !deletes_network(
                    before_step(start, ops, i),
                    #[trigger] ops[i],
                    was.network_id,
                )) ==> after.tokens.has(token)
        }),
    decreases ops.len(),
{
    if ops.len() > 0 {
        let front = ops.drop_last();
        let n = ops.len() - 1;
        let before = after_all(start, front);
        let network_id = start.tokens.at(token).network_id;
        assert forall|i: int| 0 <= i < front.len() implies !makes_token(
            before_step(start, front, i),
            #[trigger] front[i],
            token,
        ) by {
            lemma_front(start, ops, i);
            assert(!makes_token(before_step(start, ops, i), ops[i], token));
        }
        lemma_revoked_token_history(start, front, token);
        lemma_front(start, ops, n);
        assert(!makes_token(before_step(start, ops, n), ops[n], token));
        lemma_token_step(before, ops.last(), token);
        if before.tokens.has(token) {
            lemma_revoked_token_step(before, ops.last(), token);
        }
        if forall|i: int|
            0 <= i < ops.len() ==> !deletes_network(
                before_step(start, ops, i),
                #[trigger] ops[i],
                network_id,
            ) {
            assert forall|i: int| 0 <= i < front.len() implies !deletes_network(
                before_step(start, front, i),
                #[trigger] front[i],
                network_id,
            ) by {
                lemma_front(start, ops, i);
                assert(!deletes_network(before_step(start, ops, i), ops[i], network_id));
            }
            assert(!deletes_network(before_step(start, ops, n), ops[n], network_id));
        }
    }
}

/// A token that was revoked lets no node join from then on, whatever is done, as long as its secret
/// is not drawn again: whoever tries is refused, and nothing changes. The token stays revoked until
/// its network is deleted, and is not known from then on.
pub proof fn law_revoked_token_is_refused(
    state: StateView,
    token: Seq<char>,
    revoked_at: i64,
    stamp: AuditStampView,
    ops: Seq<Operation>,
    req: RegisterRequestView,
    draws: RegisterDrawsView,
)
    requires
        succeeds(state, Operation::RevokeToken { token_id: token, now: revoked_at, stamp }),
        ({
            let start = performed(
                state,
                Operation::RevokeToken { token_id: token, now: revoked_at, stamp },
            ).0;
            forall|i: int|
                0 <= i < ops.len() ==> !makes_token(
                    before_step(start, ops, i),
                    #[trigger] ops[i],
                    token,
                )
        }),
        req.token == token,
    ensures
        ({
            let start = performed(
                state,
                Operation::RevokeToken { token_id: token, now: revoked_at, stamp },
            ).0;
            let then = after_all(start, ops);
            let was = state.tokens.at(token);
            &&& registered(then, req, draws) == (
                then,
                Err::<Seq<char>, ApiError>(
                    match normalized_name(req.node_name) {
                        Err(refusal) => refusal,
                        Ok(_) => if !then.tokens.has(token) {
                            ApiError::Unauthorized("token not found")
                        } else if was.expires_at <= draws.now {
                            ApiError::Unauthorized("token expired")
                        } else {
                            ApiError::Unauthorized("token revoked")
                        },
                    },
                ),
            )
            &&& (forall|i: int|
                0 <= i < ops.len() ==> !deletes_network(
                    before_step(start, ops, i),
                    #[trigger] ops[i],
                    was.network_id,
                )) ==> then.tokens.has(token)
        }),
{
    let op = Operation::RevokeToken { token_id: token, now: revoked_at, stamp };
    let start = performed(state, op).0;
    lemma_counted(state, op);
    assert(start.tokens.has(token));
    assert(start.tokens.at(token).revoked_at is Some);
    assert(start.tokens.at(token).expires_at == state.tokens.at(token).expires_at);
    assert(start.tokens.at(token).network_id == state.tokens.at(token).network_id);
    lemma_revoked_token_history(start, ops, token);
}

/// How many of some operations let a node join with a token.
pub open spec fn joins(state: StateView, ops: Seq<Operation>, token: Seq<char>) -> nat
    decreases ops.len(),
{
    if ops.len() == 0 {
        0
    } else {
        joins(state, ops.drop_last(), token) + (if joins_with(
            after_all(state, ops.drop_last()),
            ops.last(),
            token,
        ) {
            1nat
        } else {
            0nat
        })
    }
}

/// Whatever is done, a token lets no more nodes join than it has uses, as long as its secret is not
/// drawn again.
pub proof fn law_token_limits_joins(state: StateView, ops: Seq<Operation>, token: Seq<char>)
    requires
        forall|i: int|
            0 <= i < ops.len() ==> !makes_token(
                before_step(state, ops, i),
                #[trigger] ops[i],
                token,
            ),
    ensures
        joins(state, ops, token) + uses_of(after_all(state, ops), token) <= uses_of(state, token),
    decreases ops.len(),
{
    if ops.len() > 0 {
        let front = ops.drop_last();
        let n = ops.len() - 1;
        assert forall|i: int| 0 <= i < front.len() implies !makes_token(
            before_step(state, front, i),
            #[trigger] front[i],
            token,
        ) by {
            lemma_front(state, ops, i);
            assert(!makes_token(before_step(state, ops, i), ops[i], token));
        }
        law_token_limits_joins(state, front, token);
        lemma_front(state, ops, n);
        assert(!makes_token(before_step(state, ops, n), ops[n], token));
        lemma_token_step(after_all(state, front), ops.last(), token);
    }
}

/// Whether a node is the same at two times: what it got when it joined has not changed.
pub open spec fn same_member(was: NodeStateView, is: NodeStateView) -> bool {
    &&& is.id == was.id
    &&& is.network_id == was.network_id
    &&& is.ipv4 == was.ipv4
    &&& is.ipv6 == was.ipv6
    &&& is.owner_user_id == was.owner_user_id
    &&& is.owner_email == was.owner_email
    &&& is.owner_is_admin == was.owner_is_admin
    &&& is.created_at == was.created_at
    &&& is.node_token == was.node_token
}

/// Whether a node waits for the same approval at two times.
pub open spec fn same_approval(was: NodeStateView, is: NodeStateView) -> bool {
    &&& is.approved == was.approved
    &&& is.approved_at == was.approved_at
    &&& is.auth_secret == was.auth_secret
    &&& is.auth_expires_at == was.auth_expires_at
}

/// What an operation that does not end a node leaves of it: the node itself, its approval unless
/// it is approved, and its being revoked unless it gets new keys.
pub open spec fn keeps_node(state: StateView, op: Operation, node_id: Seq<char>) -> bool {
    let after = performed(state, op).0;
    let was = state.nodes.at(node_id);
    let is = after.nodes.at(node_id);
    &&& after.nodes.has(node_id)
    &&& same_member(was, is)
    &&& was.approved || !approves_node(state, op, node_id) ==> same_approval(was, is)
    &&& was.revoked_at is Some && !renews_keys(state, op, node_id) ==> is.revoked_at is Some
}

proof fn lemma_approve_keeps_node(state: StateView, op: Operation, node_id: Seq<char>)
    requires
        state.nodes.has(node_id),
        !ends_node(state, op, node_id),
        op is Approve,
        about_node(state, op, node_id),
    ensures
        keeps_node(state, op, node_id),
{
    lemma_counted(state, op);
}

proof fn lemma_update_keeps_node(state: StateView, op: Operation, node_id: Seq<char>)
    requires
        state.nodes.has(node_id),
        !ends_node(state, op, node_id),
        op is UpdateNode,
        about_node(state, op, node_id),
    ensures
        keeps_node(state, op, node_id),
{
    lemma_counted(state, op);
}

proof fn lemma_rotate_keeps_node(state: StateView, op: Operation, node_id: Seq<char>)
    requires
        state.nodes.has(node_id),
        !ends_node(state, op, node_id),
        op is RotateKeys,
        about_node(state, op, node_id),
    ensures
        keeps_node(state, op, node_id),
{
    lemma_counted(state, op);
}

proof fn lemma_revoke_keeps_node(state: StateView, op: Operation, node_id: Seq<char>)
    requires
        state.nodes.has(node_id),
        !ends_node(state, op, node_id),
        op is RevokeNode,
        about_node(state, op, node_id),
    ensures
        keeps_node(state, op, node_id),
{
    lemma_counted(state, op);
}

proof fn lemma_heartbeat_keeps_node(state: StateView, op: Operation, node_id: Seq<char>)
    requires
        state.nodes.has(node_id),
        !ends_node(state, op, node_id),
        op is Heartbeat,
        about_node(state, op, node_id),
    ensures
        keeps_node(state, op, node_id),
{
    lemma_counted(state, op);
}

proof fn lemma_delete_keeps_node(state: StateView, op: Operation, node_id: Seq<char>)
    requires
        state.nodes.has(node_id),
        !ends_node(state, op, node_id),
        op is DeleteNode,
        about_node(state, op, node_id),
    ensures
        keeps_node(state, op, node_id),
{
    lemma_counted(state, op);
}

proof fn lemma_register_keeps_node(state: StateView, op: Operation, node_id: Seq<char>)
    requires
        state.nodes.has(node_id),
        !ends_node(state, op, node_id),
        op is Register,
        about_node(state, op, node_id),
    ensures
        keeps_node(state, op, node_id),
{
    lemma_counted(state, op);
    assert(uncounted(state, op).nodes == state.nodes);
}

proof fn lemma_register_url_keeps_node(state: StateView, op: Operation, node_id: Seq<char>)
    requires
        state.nodes.has(node_id),
        !ends_node(state, op, node_id),
        op is RegisterUrl,
        about_node(state, op, node_id),
    ensures
        keeps_node(state, op, node_id),
{
    lemma_counted(state, op);
    assert(uncounted(state, op).nodes == state.nodes);
}

proof fn lemma_node_step(state: StateView, op: Operation, node_id: Seq<char>)
    requires
        state.nodes.has(node_id),
        !ends_node(state, op, node_id),
    ensures
        keeps_node(state, op, node_id),
{
    if !about_node(state, op, node_id) {
        law_other_nodes_stay(state, op, node_id);
        assert(state.nodes.find(node_id) is Some);
        assert(performed(state, op).0.nodes.find(node_id) == Some(state.nodes.at(node_id)));
    } else {
        match op {
            Operation::Approve { .. } => lemma_approve_keeps_node(state, op, node_id),
            Operation::UpdateNode { .. } => lemma_update_keeps_node(state, op, node_id),
            Operation::RotateKeys { .. } => lemma_rotate_keeps_node(state, op, node_id),
            Operation::RevokeNode { .. } => lemma_revoke_keeps_node(state, op, node_id),
            Operation::Heartbeat { .. } => lemma_heartbeat_keeps_node(state, op, node_id),
            Operation::DeleteNode { .. } => lemma_delete_keeps_node(state, op, node_id),
            Operation::Register { .. } => lemma_register_keeps_node(state, op, node_id),
            Operation::RegisterUrl { .. } => lemma_register_url_keeps_node(state, op, node_id),
            _ => {},
        }
    }
}

/// A node that joined stays known, in its network and at its addresses, with its own token, until
/// it is deleted or its identifier is drawn again. Once it is approved it stays approved; until it
/// is approved it waits for the same secret. Once it is revoked it stays so until it gets new keys.
pub proof fn law_nodes_stay(state: StateView, ops: Seq<Operation>, node_id: Seq<char>)
    requires
        state.nodes.has(node_id),
        forall|i: int|
            0 <= i < ops.len() ==> !ends_node(
                before_step(state, ops, i),
                #[trigger] ops[i],
                node_id,
            ),
    ensures
        ({
            let then = after_all(state, ops);
            let was = state.nodes.at(node_id);
            let is = then.nodes.at(node_id);
            &&& then.nodes.has(node_id)
            &&& same_member(was, is)
            &&& was.approved ==> same_approval(was, is)
            &&& (forall|i: int|
                0 <= i < ops.len() ==> !approves_node(
                    before_step(state, ops, i),
                    #[trigger] ops[i],
                    node_id,
                )) ==> same_approval(was, is)
            &&& was.revoked_at is Some && (forall|i: int|
                0 <= i < ops.len() ==> !renews_keys(
                    before_step(state, ops, i),
                    #[trigger] ops[i],
                    node_id,
                )) ==> is.revoked_at is Some
        }),
    decreases ops.len(),
{
    if ops.len() > 0 {
        let front = ops.drop_last();
        let n = ops.len() - 1;
        assert forall|i: int| 0 <= i < front.len() implies !ends_node(
            before_step(state, front, i),
            #[trigger] front[i],
            node_id,
        ) by {
            lemma_front(state, ops, i);
            assert(!ends_node(before_step(state, ops, i), ops[i], node_id));
        }
        law_nodes_stay(state, front, node_id);
        lemma_front(state, ops, n);
        assert(!ends_node(before_step(state, ops, n), ops[n], node_id));
        lemma_node_step(after_all(state, front), ops.last(), node_id);
        if forall|i: int|
            0 <= i < ops.len() ==> !approves_node(
                before_step(state, ops, i),
                #[trigger] ops[i],
                node_id,
            ) {
            assert forall|i: int| 0 <= i < front.len() implies !approves_node(
                before_step(state, front, i),
                #[trigger] front[i],
                node_id,
            ) by {
                lemma_front(state, ops, i);
                assert(!approves_node(before_step(state, ops, i), ops[i], node_id));
            }
            assert(!approves_node(before_step(state, ops, n), ops[n], node_id));
        }
        if forall|i: int|
            0 <= i < ops.len() ==> !renews_keys(
                before_step(state, ops, i),
                #[trigger] ops[i],
                node_id,
            ) {
            assert forall|i: int| 0 <= i < front.len() implies !renews_keys(
                before_step(state, front, i),
                #[trigger] front[i],
                node_id,
            ) by {
                lemma_front(state, ops, i);
                assert(!renews_keys(before_step(state, ops, i), ops[i], node_id));
            }
            assert(!renews_keys(before_step(state, ops, n), ops[n], node_id));
        }
    }
}

/// A node that joined and waits is not approved. Whatever is done meanwhile, as long as it is
/// neither approved nor deleted and its identifier is not drawn again, it is approved by whoever
/// gives the secret in the path that it was given before the time that it was told; whoever gives
/// another secret, or comes later, is refused, and nothing changes.
pub proof fn law_waiting_node_is_approved_by_secret(
    state: StateView,
    req: RegisterUrlRequestView,
    draws: RegisterUrlDrawsView,
    ops: Seq<Operation>,
    secret: Seq<char>,
    now: i64,
    stamp: AuditStampView,
)
    requires
        url_registered(state, req, draws).1 is Ok,
        ({
            let start = performed(state, Operation::RegisterUrl { req, draws }).0;
            forall|i: int|
                0 <= i < ops.len() ==> !ends_node(
                    before_step(start, ops, i),
                    #[trigger] ops[i],
                    draws.node_id,
                ) && !approves_node(before_step(start, ops, i), ops[i], draws.node_id)
        }),
    ensures
        ({
            let answer = url_registered(state, req, draws).1->Ok_0;
            let start = performed(state, Operation::RegisterUrl { req, draws }).0;
            let then = after_all(start, ops);
            let approval = node_approved(then, draws.node_id, Some(secret), now, stamp);
            &&& answer.node_id == draws.node_id
            &&& answer.auth_path == approval_path(draws.node_id, draws.auth_secret)
            &&& answer.expires_at == expiry(draws.now, approval_ttl(req))
            &&& then.nodes.has(draws.node_id)
            &&& !then.nodes.at(draws.node_id).approved
            &&& if secret != draws.auth_secret {
                approval == (
                    then,
                    Err::<ApproveNodeResponseView, ApiError>(
                        ApiError::Unauthorized("invalid approval secret"),
                    ),
                )
            } else if answer.expires_at <= now {
                approval == (
                    then,
                    Err::<ApproveNodeResponseView, ApiError>(
                        ApiError::Unauthorized("approval expired"),
                    ),
                )
            } else {
                &&& approval.1 == Ok::<ApproveNodeResponseView, ApiError>(
                    ApproveNodeResponseView {
                        node_id: draws.node_id,
                        approved: true,
                        approved_at: Some(now),
                    },
                )
                &&& approval.0.nodes.at(draws.node_id).approved
                &&& approval.0.nodes.at(draws.node_id).approved_at == Some(now)
            }
        }),
{
    let op = Operation::RegisterUrl { req, draws };
    let start = performed(state, op).0;
    lemma_counted(state, op);
    let node = start.nodes.at(draws.node_id);
    assert(start.nodes.has(draws.node_id));
    assert(node.id == draws.node_id);
    assert(!node.approved);
    assert(node.auth_secret == Some(draws.auth_secret));
    assert(node.auth_expires_at == Some(expiry(draws.now, approval_ttl(req))));
    assert forall|i: int| 0 <= i < ops.len() implies !ends_node(
        before_step(start, ops, i),
        #[trigger] ops[i],
        draws.node_id,
    ) by {}
    assert forall|i: int| 0 <= i < ops.len() implies !approves_node(
        before_step(start, ops, i),
        #[trigger] ops[i],
        draws.node_id,
    ) by {}
    law_nodes_stay(start, ops, draws.node_id);
}

/// A node that was revoked takes no part in its network from then on, whatever is done and whatever
/// the key policy, until it gets new keys, is deleted, or its identifier is drawn again.
pub proof fn law_revoked_node_stays_out(
    state: StateView,
    node_id: Seq<char>,
    revoked_at: i64,
    stamp: AuditStampView,
    ops: Seq<Operation>,
    policy: KeyRotationPolicyView,
    later: i64,
)
    requires
        succeeds(state, Operation::RevokeNode { node_id, now: revoked_at, stamp }),
        ({
            let start = performed(
                state,
                Operation::RevokeNode { node_id, now: revoked_at, stamp },
            ).0;
            forall|i: int|
                0 <= i < ops.len() ==> !ends_node(
                    before_step(start, ops, i),
                    #[trigger] ops[i],
                    node_id,
                ) && !renews_keys(before_step(start, ops, i), ops[i], node_id)
        }),
    ensures
        ({
            let start = performed(
                state,
                Operation::RevokeNode { node_id, now: revoked_at, stamp },
            ).0;
            let then = after_all(start, ops);
            &&& then.nodes.has(node_id)
            &&& !in_good_standing(then.nodes.at(node_id), policy, later)
        }),
{
    let op = Operation::RevokeNode { node_id, now: revoked_at, stamp };
    let start = performed(state, op).0;
    lemma_counted(state, op);
    assert(start.nodes.has(node_id));
    assert(start.nodes.at(node_id).revoked_at is Some);
    assert forall|i: int| 0 <= i < ops.len() implies !ends_node(
        before_step(start, ops, i),
        #[trigger] ops[i],
        node_id,
    ) by {}
    assert forall|i: int| 0 <= i < ops.len() implies !renews_keys(
        before_step(start, ops, i),
        #[trigger] ops[i],
        node_id,
    ) by {}
    law_nodes_stay(start, ops, node_id);
}

/// A network that is not known is not known after an operation that does not make it.
proof fn lemma_network_step(state: StateView, op: Operation, network_id: Seq<char>)
    requires
        !state.networks.has(network_id),
        !draws_network(op, network_id),
    ensures
        !performed(state, op).0.networks.has(network_id),
{
    lemma_counted(state, op);
}

/// A network that is not known, such as one that was deleted, stays unknown, whatever is done, as
/// long as its identifier is not drawn.
pub proof fn law_unknown_network_stays_unknown(
    state: StateView,
    ops: Seq<Operation>,
    network_id: Seq<char>,
)
    requires
        !state.networks.has(network_id),
        forall|i: int| 0 <= i < ops.len() ==> !draws_network(#[trigger] ops[i], network_id),
    ensures
        !after_all(state, ops).networks.has(network_id),
    decreases ops.len(),
{
    if ops.len() > 0 {
        let front = ops.drop_last();
        assert forall|i: int| 0 <= i < front.len() implies !draws_network(
            #[trigger] front[i],
            network_id,
        ) by {
            assert(front[i] == ops[i]);
        }
        law_unknown_network_stays_unknown(state, front, network_id);
        assert(!draws_network(ops[ops.len() - 1], network_id));
        lemma_network_step(after_all(state, front), ops.last(), network_id);
    }
}

/// The log keeps what it holds, and the revision never goes back, whatever is done.
pub proof fn law_history_is_kept(state: StateView, ops: Seq<Operation>)
    ensures
        state.audit_log.is_prefix_of(after_all(state, ops).audit_log),
        state.revision <= after_all(state, ops).revision,
    decreases ops.len(),
{
    if ops.len() > 0 {
        let before = after_all(state, ops.drop_last());
        let then = after_all(state, ops);
        law_history_is_kept(state, ops.drop_last());
        law_log_only_grows(before, ops.last());
        law_revision_counts_writes(before, ops.last());
        let n = state.audit_log.len() as int;
        assert(then.audit_log.subrange(0, n) =~= before.audit_log.subrange(0, n)) by {
            assert forall|i: int| 0 <= i < n implies then.audit_log[i] == before.audit_log[i] by {
                let m = before.audit_log.len() as int;
                assert(before.audit_log[i] == then.audit_log.subrange(0, m)[i]);
            }
        }
    } else {
        assert(state.audit_log =~= state.audit_log.subrange(0, state.audit_log.len() as int));
    }
}

} // verus!
