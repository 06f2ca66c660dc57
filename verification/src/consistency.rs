//! What holds of the state whatever is done: names lead to what they name, addresses are given
//! once, and networks lie apart.
use vstd::prelude::*;

use crate::model::{NetworkStateView, NodeStateView, TokenStateView};
use crate::keys::key_for;
use crate::net::{
    dotted, ipv4_net_of, ipv6_net_of, last_offset4, last_offset6, law_dotted, law_offset4,
    law_offset6, law_overlap4, law_overlap6, overlap4, overlap6, parsed_ipv6, Ipv4Net, Ipv6Net,
};
use crate::state::StateView;
use crate::table::TableView;

verus! {

/// The IPv4 range of a network.
pub open spec fn v4_of(network: NetworkStateView) -> Ipv4Net {
    ipv4_net_of(network.overlay_v4)->0
}

/// The IPv6 range of a network.
pub open spec fn v6_of(network: NetworkStateView) -> Ipv6Net {
    ipv6_net_of(network.overlay_v6)->0
}

/// A network is found under its identifier, its ranges can be read, and the next addresses that it
/// gives lie in them or just behind them.
pub open spec fn network_sound(id: Seq<char>, network: NetworkStateView) -> bool {
    &&& network.id == id
    &&& ipv4_net_of(network.overlay_v4) is Some
    &&& ipv6_net_of(network.overlay_v6) is Some
    &&& v4_of(network).wf()
    &&& v6_of(network).wf()
    &&& last_offset4(v4_of(network)) is Some
    &&& 1 <= network.next_ipv4 <= last_offset4(v4_of(network))->0 + 1
    &&& network.next_ipv6 <= last_offset6(v6_of(network)) + 1
    &&& network.next_ipv6 <= network.next_ipv4 + 9
}

/// A node has addresses that its network gave: at these offsets behind the first address.
pub open spec fn placed_at(node: NodeStateView, network: NetworkStateView, o4: int, o6: int) -> bool {
    &&& 1 <= o4 < network.next_ipv4
    &&& 0 <= o6 < network.next_ipv6
    &&& node.ipv4 == dotted((v4_of(network).first() + o4) as u32)
    &&& parsed_ipv6(node.ipv6) == Some((v6_of(network).first() + o6) as u128)
}

/// A node has addresses that its network gave.
pub open spec fn placed(node: NodeStateView, network: NetworkStateView) -> bool {
    exists|o4: int, o6: int| #[trigger] placed_at(node, network, o4, o6)
}

/// Every key of a node that is not revoked is one that the node has.
pub open spec fn keys_tidy(node: NodeStateView) -> bool {
    forall|i: int|
        0 <= i < node.key_history.len() ==> ((#[trigger] node.key_history[i]).revoked_at is None
            ==> node.key_history[i].public_key == key_for(node, node.key_history[i].key_type))
}

/// A node is found under its identifier, belongs to a network that is known, has addresses that
/// the network gave, and has every key that is not revoked.
pub open spec fn node_sound(
    id: Seq<char>,
    node: NodeStateView,
    networks: TableView<NetworkStateView>,
) -> bool {
    &&& node.id == id
    &&& networks.has(node.network_id)
    &&& placed(node, networks.at(node.network_id))
    &&& keys_tidy(node)
}

/// A token is found under its secret and belongs to a network that is known.
pub open spec fn token_sound(
    id: Seq<char>,
    token: TokenStateView,
    networks: TableView<NetworkStateView>,
) -> bool {
    &&& token.token == id
    &&& networks.has(token.network_id)
}

/// Two nodes have no address in common.
pub open spec fn apart(a: NodeStateView, b: NodeStateView) -> bool {
    a.ipv4 != b.ipv4 && a.ipv6 != b.ipv6
}

/// The ranges of two networks do not overlap.
pub open spec fn ranges_apart(a: NetworkStateView, b: NetworkStateView) -> bool {
    !overlap4(v4_of(a), v4_of(b)) && !overlap6(v6_of(a), v6_of(b))
}

/// Networks are sound and lie apart.
pub open spec fn networks_hold(networks: TableView<NetworkStateView>) -> bool {
    &&& networks.wf()
    &&& forall|k: Seq<char>| #[trigger] networks.has(k) ==> network_sound(k, networks.at(k))
    &&& forall|j: Seq<char>, k: Seq<char>| #[trigger]
        networks.has(j) && #[trigger] networks.has(k) && j != k ==> ranges_apart(
            networks.at(j),
            networks.at(k),
        )
}

/// Nodes are sound and have no address in common.
pub open spec fn nodes_hold(
    nodes: TableView<NodeStateView>,
    networks: TableView<NetworkStateView>,
) -> bool {
    &&& nodes.wf()
    &&& forall|k: Seq<char>| #[trigger] nodes.has(k) ==> node_sound(k, nodes.at(k), networks)
    &&& forall|j: Seq<char>, k: Seq<char>| #[trigger]
        nodes.has(j) && #[trigger] nodes.has(k) && j != k ==> apart(nodes.at(j), nodes.at(k))
}

/// Tokens are sound.
pub open spec fn tokens_hold(
    tokens: TableView<TokenStateView>,
    networks: TableView<NetworkStateView>,
) -> bool {
    &&& tokens.wf()
    &&& forall|k: Seq<char>| #[trigger] tokens.has(k) ==> token_sound(k, tokens.at(k), networks)
}

/// The state is consistent: networks, nodes and tokens are found under their identifiers; nodes and
/// tokens belong to networks that are known; no two networks overlap; every node has addresses out
/// of the ranges of its network, and no two nodes have an address in common.
pub open spec fn consistent(state: StateView) -> bool {
    &&& networks_hold(state.networks)
    &&& nodes_hold(state.nodes, state.networks)
    &&& tokens_hold(state.tokens, state.networks)
}

/// The state that the control plane starts with is consistent.
pub proof fn law_initial_state_is_consistent()
    ensures
        consistent(StateView::initial()),
{
}

/// A network that goes on giving addresses keeps those that it gave.
proof fn lemma_still_placed(node: NodeStateView, before: NetworkStateView, after: NetworkStateView)
    requires
        placed(node, before),
        before.overlay_v4 == after.overlay_v4,
        before.overlay_v6 == after.overlay_v6,
        before.next_ipv4 <= after.next_ipv4,
        before.next_ipv6 <= after.next_ipv6,
    ensures
        placed(node, after),
{
    let (o4, o6) = choose|o4: int, o6: int| #[trigger] placed_at(node, before, o4, o6);
    assert(placed_at(node, after, o4, o6));
}

/// Changing a network in other things than its ranges, or letting it give more addresses, keeps the
/// state consistent.
pub proof fn lemma_network_changed(state: StateView, id: Seq<char>, after: NetworkStateView)
    requires
        consistent(state),
        state.networks.has(id),
        network_sound(id, after),
        state.networks.at(id).overlay_v4 == after.overlay_v4,
        state.networks.at(id).overlay_v6 == after.overlay_v6,
        state.networks.at(id).next_ipv4 <= after.next_ipv4,
        state.networks.at(id).next_ipv6 <= after.next_ipv6,
    ensures
        consistent(StateView { networks: state.networks.insert(id, after), ..state }),
{
    let before = state.networks.at(id);
    let networks = state.networks.insert(id, after);
    state.networks.lemma_insert(id, after);
    assert forall|k: Seq<char>| #[trigger] networks.has(k) <==> state.networks.has(k) by {}
    assert forall|j: Seq<char>, k: Seq<char>| #[trigger]
        networks.has(j) && #[trigger] networks.has(k) && j != k implies ranges_apart(
        networks.at(j),
        networks.at(k),
    ) by {
        assert(state.networks.has(j) && state.networks.has(k));
        assert(ranges_apart(state.networks.at(j), state.networks.at(k)));
    }
    assert forall|k: Seq<char>| #[trigger] state.nodes.has(k) implies node_sound(
        k,
        state.nodes.at(k),
        networks,
    ) by {
        let node = state.nodes.at(k);
        assert(node_sound(k, node, state.networks));
        if node.network_id == id {
            lemma_still_placed(node, before, after);
        }
    }
    assert forall|k: Seq<char>| #[trigger] state.tokens.has(k) implies token_sound(
        k,
        state.tokens.at(k),
        networks,
    ) by {
        assert(token_sound(k, state.tokens.at(k), state.networks));
    }
}

/// Changing a node in other things than its network and its addresses keeps the state consistent.
pub proof fn lemma_node_changed(state: StateView, id: Seq<char>, after: NodeStateView)
    requires
        consistent(state),
        state.nodes.has(id),
        after.id == id,
        after.network_id == state.nodes.at(id).network_id,
        after.ipv4 == state.nodes.at(id).ipv4,
        after.ipv6 == state.nodes.at(id).ipv6,
        keys_tidy(after),
    ensures
        consistent(StateView { nodes: state.nodes.insert(id, after), ..state }),
{
    let before = state.nodes.at(id);
    let nodes = state.nodes.insert(id, after);
    state.nodes.lemma_insert(id, after);
    assert(node_sound(id, before, state.networks));
    let network = state.networks.at(before.network_id);
    let (o4, o6) = choose|o4: int, o6: int| #[trigger] placed_at(before, network, o4, o6);
    assert(placed_at(after, network, o4, o6));
    assert forall|k: Seq<char>| #[trigger] nodes.has(k) implies node_sound(
        k,
        nodes.at(k),
        state.networks,
    ) by {
        assert(state.nodes.has(k));
    }
    assert forall|j: Seq<char>, k: Seq<char>| #[trigger]
        nodes.has(j) && #[trigger] nodes.has(k) && j != k implies apart(
        nodes.at(j),
        nodes.at(k),
    ) by {
        assert(state.nodes.has(j) && state.nodes.has(k));
        assert(apart(state.nodes.at(j), state.nodes.at(k)));
    }
}

/// A node with addresses that no other node has can join; it takes the place of a node of the same
/// identifier.
pub proof fn lemma_node_added(state: StateView, node: NodeStateView)
    requires
        consistent(state),
        state.networks.has(node.network_id),
        placed(node, state.networks.at(node.network_id)),
        keys_tidy(node),
        forall|k: Seq<char>| #[trigger] state.nodes.has(k) ==> apart(node, state.nodes.at(k)),
    ensures
        consistent(StateView { nodes: state.nodes.insert(node.id, node), ..state }),
{
    let nodes = state.nodes.insert(node.id, node);
    state.nodes.lemma_insert(node.id, node);
    assert forall|k: Seq<char>| #[trigger] nodes.has(k) implies node_sound(
        k,
        nodes.at(k),
        state.networks,
    ) by {
        if k != node.id {
            assert(state.nodes.has(k));
        }
    }
    assert forall|j: Seq<char>, k: Seq<char>| #[trigger]
        nodes.has(j) && #[trigger] nodes.has(k) && j != k implies apart(
        nodes.at(j),
        nodes.at(k),
    ) by {
        if j != node.id {
            assert(state.nodes.has(j));
        }
        if k != node.id {
            assert(state.nodes.has(k));
        }
    }
}

/// A node can go.
pub proof fn lemma_node_removed(state: StateView, id: Seq<char>)
    requires
        consistent(state),
    ensures
        consistent(StateView { nodes: state.nodes.remove(id), ..state }),
{
    let nodes = state.nodes.remove(id);
    state.nodes.lemma_remove(id);
    assert forall|k: Seq<char>| #[trigger] nodes.has(k) implies node_sound(
        k,
        nodes.at(k),
        state.networks,
    ) by {
        assert(state.nodes.has(k));
    }
    assert forall|j: Seq<char>, k: Seq<char>| #[trigger]
        nodes.has(j) && #[trigger] nodes.has(k) && j != k implies apart(
        nodes.at(j),
        nodes.at(k),
    ) by {
        assert(state.nodes.has(j) && state.nodes.has(k));
    }
}

/// A token of a network that is known can come, or change.
pub proof fn lemma_token_added(state: StateView, token: TokenStateView)
    requires
        consistent(state),
        state.networks.has(token.network_id),
    ensures
        consistent(StateView { tokens: state.tokens.insert(token.token, token), ..state }),
{
    let tokens = state.tokens.insert(token.token, token);
    state.tokens.lemma_insert(token.token, token);
    assert forall|k: Seq<char>| #[trigger] tokens.has(k) implies token_sound(
        k,
        tokens.at(k),
        state.networks,
    ) by {
        if k != token.token {
            assert(state.tokens.has(k));
        }
    }
}

/// A token can go.
pub proof fn lemma_token_removed(state: StateView, id: Seq<char>)
    requires
        consistent(state),
    ensures
        consistent(StateView { tokens: state.tokens.remove(id), ..state }),
{
    let tokens = state.tokens.remove(id);
    state.tokens.lemma_remove(id);
    assert forall|k: Seq<char>| #[trigger] tokens.has(k) implies token_sound(
        k,
        tokens.at(k),
        state.networks,
    ) by {
        assert(state.tokens.has(k));
    }
}

/// A network whose ranges lie apart from those of all others can come.
pub proof fn lemma_network_added(state: StateView, network: NetworkStateView)
    requires
        consistent(state),
        !state.networks.has(network.id),
        network_sound(network.id, network),
        forall|k: Seq<char>| #[trigger]
            state.networks.has(k) ==> ranges_apart(network, state.networks.at(k)),
    ensures
        consistent(StateView { networks: state.networks.insert(network.id, network), ..state }),
{
    let networks = state.networks.insert(network.id, network);
    state.networks.lemma_insert(network.id, network);
    assert forall|k: Seq<char>| #[trigger] networks.has(k) implies network_sound(
        k,
        networks.at(k),
    ) by {
        if k != network.id {
            assert(state.networks.has(k));
        }
    }
    assert forall|j: Seq<char>, k: Seq<char>| #[trigger]
        networks.has(j) && #[trigger] networks.has(k) && j != k implies ranges_apart(
        networks.at(j),
        networks.at(k),
    ) by {
        if j != network.id {
            assert(state.networks.has(j));
        }
        if k != network.id {
            assert(state.networks.has(k));
        }
        if k == network.id {
            let other = state.networks.at(j);
            assert(ranges_apart(network, other));
            assert(network_sound(j, other));
            law_overlap4(v4_of(network), v4_of(other));
            law_overlap6(v6_of(network), v6_of(other));
        }
    }
    assert forall|k: Seq<char>| #[trigger] state.nodes.has(k) implies node_sound(
        k,
        state.nodes.at(k),
        networks,
    ) by {
        assert(node_sound(k, state.nodes.at(k), state.networks));
    }
    assert forall|k: Seq<char>| #[trigger] state.tokens.has(k) implies token_sound(
        k,
        state.tokens.at(k),
        networks,
    ) by {
        assert(token_sound(k, state.tokens.at(k), state.networks));
    }
}

/// A network without nodes can go, with its tokens.
pub proof fn lemma_network_removed(state: StateView, id: Seq<char>)
    requires
        consistent(state),
        forall|k: Seq<char>| #[trigger]
            state.nodes.has(k) ==> state.nodes.at(k).network_id != id,
    ensures
        consistent(
            StateView {
                networks: state.networks.remove(id),
                tokens: state.tokens.retain(|token: TokenStateView| token.network_id != id),
                ..state
            },
        ),
{
    let networks = state.networks.remove(id);
    let keep = |token: TokenStateView| token.network_id != id;
    let tokens = state.tokens.retain(keep);
    state.networks.lemma_remove(id);
    state.tokens.lemma_retain(keep);
    assert forall|k: Seq<char>| #[trigger] networks.has(k) implies network_sound(
        k,
        networks.at(k),
    ) by {
        assert(state.networks.has(k));
    }
    assert forall|j: Seq<char>, k: Seq<char>| #[trigger]
        networks.has(j) && #[trigger] networks.has(k) && j != k implies ranges_apart(
        networks.at(j),
        networks.at(k),
    ) by {
        assert(state.networks.has(j) && state.networks.has(k));
    }
    assert forall|k: Seq<char>| #[trigger] state.nodes.has(k) implies node_sound(
        k,
        state.nodes.at(k),
        networks,
    ) by {
        assert(node_sound(k, state.nodes.at(k), state.networks));
    }
    assert forall|k: Seq<char>| #[trigger] tokens.has(k) implies token_sound(
        k,
        tokens.at(k),
        networks,
    ) by {
        assert(state.tokens.has(k));
        assert(token_sound(k, state.tokens.at(k), state.networks));
        assert(keep(state.tokens.at(k)));
    }
}

/// The addresses that a network gives next belong to no node yet.
pub proof fn lemma_next_addresses_are_free(
    state: StateView,
    id: Seq<char>,
    node: NodeStateView,
    other: Seq<char>,
)
    requires
        consistent(state),
        state.networks.has(id),
        state.nodes.has(other),
        ({
            let network = state.networks.at(id);
            &&& network.next_ipv4 <= last_offset4(v4_of(network))->0
            &&& network.next_ipv6 <= last_offset6(v6_of(network))
            &&& node.ipv4 == dotted((v4_of(network).first() + network.next_ipv4) as u32)
            &&& parsed_ipv6(node.ipv6) == Some(
                (v6_of(network).first() + network.next_ipv6) as u128,
            )
        }),
    ensures
        apart(node, state.nodes.at(other)),
{
    let network = state.networks.at(id);
    let taken = state.nodes.at(other);
    let home = state.networks.at(taken.network_id);
    assert(network_sound(id, network));
    assert(node_sound(other, taken, state.networks));
    assert(network_sound(taken.network_id, home));
    let (o4, o6) = choose|o4: int, o6: int| #[trigger] placed_at(taken, home, o4, o6);
    let new4 = v4_of(network).first() + network.next_ipv4;
    let new6 = v6_of(network).first() + network.next_ipv6;
    let old4 = v4_of(home).first() + o4;
    let old6 = v6_of(home).first() + o6;
    law_offset4(v4_of(network), network.next_ipv4 as int);
    law_offset6(v6_of(network), network.next_ipv6 as int);
    law_offset4(v4_of(home), o4);
    law_offset6(v6_of(home), o6);
    v4_of(network).lemma_range();
    v4_of(home).lemma_range();
    v6_of(network).lemma_range();
    v6_of(home).lemma_range();
    if taken.network_id == id {
        assert(new4 != old4);
        assert(new6 != old6);
    } else {
        assert(ranges_apart(network, home));
        law_overlap4(v4_of(network), v4_of(home));
        law_overlap6(v6_of(network), v6_of(home));
        if new4 == old4 {
            let ip = new4 as u32;
            assert(v4_of(network).has(ip as int) && v4_of(home).has(ip as int));
        }
        if new6 == old6 {
            let ip = new6 as u128;
            assert(v6_of(network).has(ip as int) && v6_of(home).has(ip as int));
        }
    }
    law_dotted(new4 as u32, old4 as u32);
}

/// In a consistent state every node has an IPv4 address of its network that is neither the first
/// nor the last of it, and an IPv6 address of its network, and no other node has either.
pub proof fn law_addresses(state: StateView, id: Seq<char>, other: Seq<char>)
    requires
        consistent(state),
        state.nodes.has(id),
        state.nodes.has(other),
        id != other,
    ensures
        ({
            let node = state.nodes.at(id);
            let network = state.networks.at(node.network_id);
            &&& exists|ip: u32|
                {
                    &&& node.ipv4 == #[trigger] dotted(ip)
                    &&& v4_of(network).first() < ip < v4_of(network).last()
                }
            &&& exists|ip: u128|
                {
                    &&& parsed_ipv6(node.ipv6) == Some(ip)
                    &&& #[trigger] v6_of(network).has(ip as int)
                }
            &&& node.ipv4 != state.nodes.at(other).ipv4
            &&& node.ipv6 != state.nodes.at(other).ipv6
        }),
{
    let node = state.nodes.at(id);
    assert(node_sound(id, node, state.networks));
    let network = state.networks.at(node.network_id);
    assert(network_sound(node.network_id, network));
    let (o4, o6) = choose|o4: int, o6: int| #[trigger] placed_at(node, network, o4, o6);
    law_offset4(v4_of(network), o4);
    law_offset6(v6_of(network), o6);
    v4_of(network).lemma_range();
    v6_of(network).lemma_range();
    let ip4 = (v4_of(network).first() + o4) as u32;
    let ip6 = (v6_of(network).first() + o6) as u128;
    assert(node.ipv4 == dotted(ip4));
    assert(v6_of(network).has(ip6 as int));
    assert(apart(node, state.nodes.at(other)));
}

} // verus!
