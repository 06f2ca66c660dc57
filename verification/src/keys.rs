//! The keys of a node, how old they may grow, and times in seconds.
use vstd::prelude::*;

use crate::model::{
    KeyRecord, KeyRecordView, KeyRotationPolicy, KeyRotationPolicyView, KeyType, NodeState,
    NodeStateView,
};

verus! {

/// The time `ttl` seconds after `now`, wrapping around past the last time that can be told.
pub open spec fn expiry(now: i64, ttl: u64) -> i64 {
    if now + ttl > i64::MAX {
        (now + ttl - 0x1_0000_0000_0000_0000) as i64
    } else {
        (now + ttl) as i64
    }
}

/// The time `ttl` seconds after `now`.
pub fn expires_at(now: i64, ttl: u64) -> (r: i64)
    ensures
        r == expiry(now, ttl),
        now + ttl <= i64::MAX ==> r == now + ttl,
{
    let sum: i128 = now as i128 + ttl as i128;
    if sum > i64::MAX as i128 {
        (sum - 0x1_0000_0000_0000_0000) as i64
    } else {
        sum as i64
    }
}

/// How long `then` is ago, within the range of a time.
pub open spec fn elapsed(now: i64, then: i64) -> i64 {
    if now - then > i64::MAX {
        i64::MAX
    } else if now - then < i64::MIN {
        i64::MIN
    } else {
        (now - then) as i64
    }
}

/// How long `then` is ago, within the range of a time.
pub fn seconds_since(now: i64, then: i64) -> (r: i64)
    ensures
        r == elapsed(now, then),
{
    let difference: i128 = now as i128 - then as i128;
    if difference > i64::MAX as i128 {
        i64::MAX
    } else if difference < i64::MIN as i128 {
        i64::MIN
    } else {
        difference as i64
    }
}

/// The greatest age that a policy grants, as a number of seconds; numbers past the greatest time
/// wrap around.
pub open spec fn age_limit(max_age: u64) -> i64 {
    if max_age > i64::MAX {
        (max_age - 0x1_0000_0000_0000_0000) as i64
    } else {
        max_age as i64
    }
}

/// The public key of a node that serves a purpose.
pub open spec fn key_for(node: NodeStateView, key_type: KeyType) -> Seq<char> {
    match key_type {
        KeyType::Machine => node.machine_public_key,
        KeyType::WireGuard => node.wg_public_key,
    }
}

/// Whether a record is about the key that a node has now for a purpose.
pub open spec fn is_current(record: KeyRecordView, node: NodeStateView, key_type: KeyType) -> bool {
    &&& record.key_type == key_type
    &&& record.revoked_at is None
    &&& record.public_key == key_for(node, key_type)
}

/// When the key that a node has now for a purpose was made, by the first record about it in
/// `history`.
pub open spec fn key_made(
    history: Seq<KeyRecordView>,
    node: NodeStateView,
    key_type: KeyType,
) -> Option<i64>
    decreases history.len(),
{
    if history.len() == 0 {
        None
    } else if is_current(history[0], node, key_type) {
        Some(history[0].created_at)
    } else {
        key_made(history.drop_first(), node, key_type)
    }
}

/// When the key that a node has now for a purpose was made, where that is known.
pub fn current_key_created_at(node: &NodeState, key_type: KeyType) -> (r: Option<i64>)
    ensures
        r == key_made(node.deep_view().key_history, node.deep_view(), key_type),
{
    let ghost history = node.key_history.deep_view();
    let mut i: usize = 0;
    assert(history.skip(0) =~= history);
    while i < node.key_history.len()
        invariant
            i <= node.key_history@.len(),
            history == node.key_history.deep_view(),
            key_made(history, node.deep_view(), key_type) == key_made(
                history.skip(i as int),
                node.deep_view(),
                key_type,
            ),
        decreases node.key_history.len() - i,
    {
        let record: &KeyRecord = &node.key_history[i];
        assert(history.skip(i as int)[0] == record.deep_view());
        let current: bool = record.key_type == key_type && record.revoked_at.is_none()
            && match key_type {
            KeyType::Machine => record.public_key == node.machine_public_key,
            KeyType::WireGuard => record.public_key == node.wg_public_key,
        };
        if current {
            return Some(record.created_at);
        }
        assert(history.skip(i as int).drop_first() =~= history.skip(i + 1));
        i = i + 1;
    }
    None
}

/// Whether the key of a node for a purpose is older than `limit`.
pub open spec fn key_overdue(node: NodeStateView, key_type: KeyType, limit: i64, now: i64) -> bool {
    match key_made(node.key_history, node, key_type) {
        Some(made) => elapsed(now, made) > limit,
        None => false,
    }
}

/// Whether a node must change its keys: one of them is older than the policy grants.
pub open spec fn rotation_due(node: NodeStateView, policy: KeyRotationPolicyView, now: i64) -> bool {
    match policy.max_age_seconds {
        Some(max_age) => key_overdue(node, KeyType::Machine, age_limit(max_age), now)
            || key_overdue(node, KeyType::WireGuard, age_limit(max_age), now),
        None => false,
    }
}

/// Whether a node takes part in its network: it is approved, not revoked, and its keys are young
/// enough.
pub open spec fn in_good_standing(
    node: NodeStateView,
    policy: KeyRotationPolicyView,
    now: i64,
) -> bool {
    node.approved && node.revoked_at is None && !rotation_due(node, policy, now)
}

/// Whether a node takes part in its network, and whether it must change its keys.
pub fn effective_node_status(node: &NodeState, key_policy: &KeyRotationPolicy, now: i64) -> (r: (
    bool,
    bool,
))
    ensures
        r.0 == in_good_standing(node.deep_view(), key_policy.deep_view(), now),
        r.1 == rotation_due(node.deep_view(), key_policy.deep_view(), now),
{
    let mut key_rotation_required: bool = false;
    if let Some(max_age) = key_policy.max_age_seconds {
        let limit: i64 = if max_age > i64::MAX as u64 {
            (max_age as i128 - 0x1_0000_0000_0000_0000) as i64
        } else {
            max_age as i64
        };
        if let Some(created_at) = current_key_created_at(node, KeyType::Machine) {
            if seconds_since(now, created_at) > limit {
                key_rotation_required = true;
            }
        }
        if let Some(created_at) = current_key_created_at(node, KeyType::WireGuard) {
            if seconds_since(now, created_at) > limit {
                key_rotation_required = true;
            }
        }
    }
    let revoked: bool = node.revoked_at.is_some();
    let approved: bool = node.approved && !revoked && !key_rotation_required;
    (approved, key_rotation_required)
}

/// A record after the key `public_key` was revoked at `now`.
pub open spec fn record_revoked(
    record: KeyRecordView,
    key_type: KeyType,
    public_key: Seq<char>,
    now: i64,
) -> KeyRecordView {
    if record.key_type == key_type && record.public_key == public_key {
        KeyRecordView { revoked_at: Some(now), ..record }
    } else {
        record
    }
}

/// The records after the key `public_key` was revoked at `now`: every record about it says so.
pub open spec fn key_revoked(
    history: Seq<KeyRecordView>,
    key_type: KeyType,
    public_key: Seq<char>,
    now: i64,
) -> Seq<KeyRecordView> {
    Seq::new(history.len(), |i: int| record_revoked(history[i], key_type, public_key, now))
}

/// Marks every record about a key as revoked.
pub fn revoke_key_record(
    history: &mut Vec<KeyRecord>,
    key_type: KeyType,
    public_key: &String,
    now: i64,
)
    ensures
        final(history).deep_view() == key_revoked(
            old(history).deep_view(),
            key_type,
            public_key@,
            now,
        ),
{
    let ghost before = history.deep_view();
    let mut i: usize = 0;
    while i < history.len()
        invariant
            i <= history@.len(),
            history@.len() == before.len(),
            forall|k: int|
                0 <= k < i ==> #[trigger] history.deep_view()[k] == record_revoked(
                    before[k],
                    key_type,
                    public_key@,
                    now,
                ),
            forall|k: int|
                i <= k < before.len() ==> #[trigger] history.deep_view()[k] == before[k],
        decreases history.len() - i,
    {
        let ghost middle = history.deep_view();
        assert(history.deep_view()[i as int] == before[i as int]);
        if history[i].key_type == key_type && history[i].public_key == *public_key {
            let record = KeyRecord {
                key_type: history[i].key_type,
                public_key: history[i].public_key.clone(),
                created_at: history[i].created_at,
                revoked_at: Some(now),
            };
            history.set(i, record);
            assert(history.deep_view() =~= middle.update(
                i as int,
                record_revoked(before[i as int], key_type, public_key@, now),
            ));
        }
        i = i + 1;
    }
    assert(history.deep_view() =~= key_revoked(before, key_type, public_key@, now));
}

/// The record of a key that was made at `now`.
pub open spec fn fresh_key(key_type: KeyType, public_key: Seq<char>, now: i64) -> KeyRecordView {
    KeyRecordView { key_type, public_key, created_at: now, revoked_at: None }
}

/// A revoked key is nowhere in the history as current, whatever the node.
pub proof fn law_revoked_key_is_not_current(
    history: Seq<KeyRecordView>,
    key_type: KeyType,
    public_key: Seq<char>,
    now: i64,
    node: NodeStateView,
)
    requires
        key_for(node, key_type) == public_key,
    ensures
        key_made(key_revoked(history, key_type, public_key, now), node, key_type) is None,
    decreases history.len(),
{
    let after = key_revoked(history, key_type, public_key, now);
    if history.len() > 0 {
        law_revoked_key_is_not_current(history.drop_first(), key_type, public_key, now, node);
        assert(after.drop_first() =~= key_revoked(history.drop_first(), key_type, public_key, now));
    }
}

/// A time to live ends that many seconds from now; where the clock does not reach as far, it goes
/// on from its lowest reading.
pub proof fn law_expiry(now: i64, ttl: u64)
    ensures
        now + ttl <= i64::MAX ==> expiry(now, ttl) == now + ttl,
        (now + ttl - expiry(now, ttl)) % 0x1_0000_0000_0000_0000 == 0,
{
}

/// The time from one reading of the clock to another is their difference, kept within what the
/// clock can show.
pub proof fn law_elapsed(now: i64, then: i64)
    ensures
        i64::MIN <= now - then <= i64::MAX ==> elapsed(now, then) == now - then,
        now - then > i64::MAX ==> elapsed(now, then) == i64::MAX,
        now - then < i64::MIN ==> elapsed(now, then) == i64::MIN,
{
}

/// The time since when a key is in use is that of the first record of it that is not revoked.
pub proof fn law_key_made(
    history: Seq<KeyRecordView>,
    node: NodeStateView,
    key_type: KeyType,
    i: int,
)
    requires
        0 <= i <= history.len(),
        forall|j: int|
            0 <= j < i ==> (#[trigger] history[j]).key_type != key_type || history[j].revoked_at
                is Some || history[j].public_key != (if key_type == KeyType::Machine {
                node.machine_public_key
            } else {
                node.wg_public_key
            }),
        i < history.len() ==> history[i].key_type == key_type && history[i].revoked_at is None
            && history[i].public_key == (if key_type == KeyType::Machine {
            node.machine_public_key
        } else {
            node.wg_public_key
        }),
    ensures
        key_made(history, node, key_type) == (if i < history.len() {
            Some(history[i].created_at)
        } else {
            None
        }),
    decreases history.len(),
{
    if history.len() > 0 && i > 0 {
        let rest = history.drop_first();
        assert(!is_current(history[0], node, key_type));
        assert forall|j: int| 0 <= j < i - 1 implies (#[trigger] rest[j]) == history[j + 1] by {
        }
        law_key_made(rest, node, key_type, i - 1);
    }
}

/// Keys are due to be changed exactly where the network limits their age and one of the two keys in
/// use is older than that. A limit beyond what the clock can show lies before all times.
pub proof fn law_rotation_due(node: NodeStateView, policy: KeyRotationPolicyView, now: i64)
    ensures
        ({
            let machine = key_made(node.key_history, node, KeyType::Machine);
            let wg = key_made(node.key_history, node, KeyType::WireGuard);
            &&& policy.max_age_seconds is None ==> !rotation_due(node, policy, now)
            &&& policy.max_age_seconds matches Some(max_age) ==> (max_age <= i64::MAX ==> (
            rotation_due(node, policy, now) <==> {
                ||| machine is Some && elapsed(now, machine->0) > max_age
                ||| wg is Some && elapsed(now, wg->0) > max_age
            })) && (max_age > i64::MAX ==> (rotation_due(node, policy, now) <==> {
                ||| machine is Some && elapsed(now, machine->0) > max_age - 0x1_0000_0000_0000_0000
                ||| wg is Some && elapsed(now, wg->0) > max_age - 0x1_0000_0000_0000_0000
            }))
        }),
{
}

/// A node is in good standing where it is approved, not revoked and its keys are not due to be
/// changed, and only there.
pub proof fn law_good_standing(node: NodeStateView, policy: KeyRotationPolicyView, now: i64)
    ensures
        in_good_standing(node, policy, now) ==> node.approved,
        in_good_standing(node, policy, now) ==> node.revoked_at is None,
        in_good_standing(node, policy, now) ==> !rotation_due(node, policy, now),
        node.approved && node.revoked_at is None && policy.max_age_seconds is None
            ==> in_good_standing(node, policy, now),
        node.approved && node.revoked_at is None && !rotation_due(node, policy, now)
            ==> in_good_standing(node, policy, now),
{
}

/// Revoking a key dates the revocation in every record of that key, and leaves all other records
/// and the rest of those as they were.
pub proof fn law_key_revoked(
    history: Seq<KeyRecordView>,
    key_type: KeyType,
    public_key: Seq<char>,
    now: i64,
    i: int,
)
    requires
        0 <= i < history.len(),
    ensures
        ({
            let after = key_revoked(history, key_type, public_key, now);
            &&& after.len() == history.len()
            &&& after[i].key_type == history[i].key_type
            &&& after[i].public_key == history[i].public_key
            &&& after[i].created_at == history[i].created_at
            &&& history[i].key_type == key_type && history[i].public_key == public_key
                ==> after[i].revoked_at == Some(now)
            &&& history[i].key_type != key_type || history[i].public_key != public_key
                ==> after[i].revoked_at == history[i].revoked_at
        }),
{
}

} // verus!
