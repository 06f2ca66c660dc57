//! Which nodes may reach which.
use vstd::prelude::*;

use crate::model::{
    AclAction, AclPolicy, AclPolicyView, AclSelector, AclSelectorView, NodeState, NodeStateView,
};
use crate::text::list_holds;

verus! {

/// Whether a selector names nothing.
pub open spec fn selects_nothing_in_particular(selector: AclSelectorView) -> bool {
    selector.tags.len() == 0 && selector.node_ids.len() == 0 && selector.names.len() == 0
}

/// Whether a selector is about a node: it is about any node, or names nothing, or names the node
/// by its id, its name or one of its tags.
pub open spec fn selects(selector: AclSelectorView, node: NodeStateView) -> bool {
    ||| selector.any
    ||| selects_nothing_in_particular(selector)
    ||| selector.node_ids.contains(node.id)
    ||| selector.names.contains(node.name)
    ||| exists|tag: Seq<char>| #[trigger] selector.tags.contains(tag) && node.tags.contains(tag)
}

/// Whether a selector is about a node.
pub fn selector_matches(node: &NodeState, selector: &AclSelector) -> (r: bool)
    ensures
        r == selects(selector.deep_view(), node.deep_view()),
{
    let empty: bool = selector.tags.len() == 0 && selector.node_ids.len() == 0
        && selector.names.len() == 0;
    if selector.any || empty {
        return true;
    }
    if list_holds(&selector.node_ids, node.id.as_str()) {
        return true;
    }
    if list_holds(&selector.names, node.name.as_str()) {
        return true;
    }
    let ghost tags = selector.tags.deep_view();
    let mut i: usize = 0;
    while i < selector.tags.len()
        invariant
            i <= selector.tags@.len(),
            tags == selector.tags.deep_view(),
            forall|k: int| 0 <= k < i ==> !node.tags.deep_view().contains(#[trigger] tags[k]),
        decreases selector.tags.len() - i,
    {
        if list_holds(&node.tags, selector.tags[i].as_str()) {
            assert(tags.contains(tags[i as int]));
            return true;
        }
        i = i + 1;
    }
    proof {
        if exists|tag: Seq<char>| #[trigger]
            tags.contains(tag) && node.tags.deep_view().contains(tag) {
            let tag = choose|tag: Seq<char>| #[trigger]
                tags.contains(tag) && node.tags.deep_view().contains(tag);
            assert(!node.tags.deep_view().contains(tags[tags.index_of(tag)]));
        }
    }
    false
}

/// The place of the first rule about traffic from `src` to `dst`, or the number of rules where
/// there is none.
pub open spec fn first_rule(policy: AclPolicyView, src: NodeStateView, dst: NodeStateView) -> int
    decreases policy.rules.len(),
{
    if policy.rules.len() == 0 {
        0
    } else if selects(policy.rules[0].src, src) && selects(policy.rules[0].dst, dst) {
        0
    } else {
        1 + first_rule(AclPolicyView { rules: policy.rules.drop_first(), ..policy }, src, dst)
    }
}

/// What happens to traffic from `src` to `dst`: what the first rule about it says, or the default
/// where no rule is about it.
pub open spec fn decided(policy: AclPolicyView, src: NodeStateView, dst: NodeStateView) -> AclAction {
    let place = first_rule(policy, src, dst);
    if 0 <= place < policy.rules.len() {
        policy.rules[place].action
    } else {
        policy.default_action
    }
}

/// Whether traffic from `src` to `dst` is allowed.
pub open spec fn allowed(policy: AclPolicyView, src: NodeStateView, dst: NodeStateView) -> bool {
    decided(policy, src, dst) == AclAction::Allow
}

/// The first rule about some traffic is about it, and no rule before it is.
pub proof fn law_first_rule(policy: AclPolicyView, src: NodeStateView, dst: NodeStateView)
    ensures
        0 <= first_rule(policy, src, dst) <= policy.rules.len(),
        forall|i: int|
            0 <= i < first_rule(policy, src, dst) ==> !(selects(
                (#[trigger] policy.rules[i]).src,
                src,
            ) && selects(policy.rules[i].dst, dst)),
        first_rule(policy, src, dst) < policy.rules.len() ==> selects(
            policy.rules[first_rule(policy, src, dst)].src,
            src,
        ) && selects(policy.rules[first_rule(policy, src, dst)].dst, dst),
    decreases policy.rules.len(),
{
    if policy.rules.len() > 0 && !(selects(policy.rules[0].src, src) && selects(
        policy.rules[0].dst,
        dst,
    )) {
        let rest = AclPolicyView { rules: policy.rules.drop_first(), ..policy };
        law_first_rule(rest, src, dst);
        assert forall|i: int| 0 <= i < first_rule(policy, src, dst) implies !(selects(
            (#[trigger] policy.rules[i]).src,
            src,
        ) && selects(policy.rules[i].dst, dst)) by {
            if i > 0 {
                assert(policy.rules[i] == rest.rules[i - 1]);
            }
        }
    }
}

/// Whether traffic from `src` to `dst` is allowed.
pub fn acl_allows(policy: &AclPolicy, src: &NodeState, dst: &NodeState) -> (r: bool)
    ensures
        r == allowed(policy.deep_view(), src.deep_view(), dst.deep_view()),
{
    let ghost view = policy.deep_view();
    let ghost from = src.deep_view();
    let ghost to = dst.deep_view();
    let mut i: usize = 0;
    proof {
        law_first_rule(view, from, to);
    }
    while i < policy.rules.len()
        invariant
            i <= policy.rules@.len(),
            view == policy.deep_view(),
            from == src.deep_view(),
            to == dst.deep_view(),
            0 <= first_rule(view, from, to) <= view.rules.len(),
            i <= first_rule(view, from, to),
            forall|k: int|
                0 <= k < first_rule(view, from, to) ==> !(selects(
                    (#[trigger] view.rules[k]).src,
                    from,
                ) && selects(view.rules[k].dst, to)),
            first_rule(view, from, to) < view.rules.len() ==> selects(
                view.rules[first_rule(view, from, to)].src,
                from,
            ) && selects(view.rules[first_rule(view, from, to)].dst, to),
        decreases policy.rules.len() - i,
    {
        assert(view.rules[i as int] == policy.rules@[i as int].deep_view());
        if selector_matches(src, &policy.rules[i].src) && selector_matches(
            dst,
            &policy.rules[i].dst,
        ) {
            return policy.rules[i].action == AclAction::Allow;
        }
        i = i + 1;
    }
    policy.default_action == AclAction::Allow
}

/// A policy without rules decides by its default alone, and the policy that a network starts with
/// allows everything.
pub proof fn law_default_policy(policy: AclPolicyView, src: NodeStateView, dst: NodeStateView)
    ensures
        policy.rules.len() == 0 ==> decided(policy, src, dst) == policy.default_action,
        allowed(AclPolicyView::open_to_all(), src, dst),
{
}

/// A selector for all nodes selects every node, and so does one that names none. Any other selects
/// the nodes whose identifier or name it lists, and those that have one of its tags.
pub proof fn law_selector(selector: AclSelectorView, node: NodeStateView)
    ensures
        selector.any ==> selects(selector, node),
        selector.tags.len() == 0 && selector.node_ids.len() == 0 && selector.names.len() == 0
            ==> selects(selector, node),
        selector.node_ids.contains(node.id) ==> selects(selector, node),
        selector.names.contains(node.name) ==> selects(selector, node),
        forall|tag: Seq<char>| #[trigger]
            selector.tags.contains(tag) && node.tags.contains(tag) ==> selects(selector, node),
        !selector.any && selector.tags.len() + selector.node_ids.len() + selector.names.len() > 0
            && !selector.node_ids.contains(node.id) && !selector.names.contains(node.name) && (
        forall|tag: Seq<char>| #[trigger]
            selector.tags.contains(tag) ==> !node.tags.contains(tag)) ==> !selects(selector, node),
{
}

/// One node may reach another exactly where the first rule that is about both of them allows it, or
/// no rule is about both of them and the default allows it.
pub proof fn law_allowed(policy: AclPolicyView, src: NodeStateView, dst: NodeStateView, i: int)
    requires
        0 <= i <= policy.rules.len(),
        forall|j: int|
            0 <= j < i ==> !(selects((#[trigger] policy.rules[j]).src, src) && selects(
                policy.rules[j].dst,
                dst,
            )),
        i < policy.rules.len() ==> selects(policy.rules[i].src, src) && selects(
            policy.rules[i].dst,
            dst,
        ),
    ensures
        allowed(policy, src, dst) <==> (if i < policy.rules.len() {
            policy.rules[i].action
        } else {
            policy.default_action
        }) == AclAction::Allow,
{
    law_first_rule(policy, src, dst);
    let place = first_rule(policy, src, dst);
    if place < i {
        assert(!(selects(policy.rules[place].src, src) && selects(policy.rules[place].dst, dst)));
    }
    if i < place {
        assert(!(selects(policy.rules[i].src, src) && selects(policy.rules[i].dst, dst)));
    }
}

} // verus!
