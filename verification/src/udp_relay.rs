//! The relay for nodes that reach it with datagrams.
use vstd::prelude::*;
use vstd::utf8::encode_utf8;

use crate::mesh::{MeshOutgoingPacket, MeshTransport};
use crate::packet::{
    build_packet, packet_bytes, packet_in, parse_packet, RelayError, RelayPacket, RelayPacketView,
    MAX_ID_LEN, TYPE_DELIVER, UDP_MAGIC,
};
use crate::table::{Table, TableView};
use crate::timed::age;

verus! {

/// How long a node is known after it was last heard of, in nanoseconds: five minutes.
pub const PEER_TTL: u64 = 300_000_000_000;

/// Where a node was last heard of, and when; `A` is an address, and times are in nanoseconds.
pub struct UdpPeer<A: Copy> {
    pub addr: A,
    pub last_seen: u64,
}

impl<A: Copy> DeepView for UdpPeer<A> {
    type V = UdpPeer<A>;

    open spec fn deep_view(&self) -> UdpPeer<A> {
        *self
    }
}

/// The nodes that were heard of.
pub struct UdpPeers<A: Copy> {
    peers: Table<UdpPeer<A>>,
}

impl<A: Copy> DeepView for UdpPeers<A> {
    type V = TableView<UdpPeer<A>>;

    closed spec fn deep_view(&self) -> TableView<UdpPeer<A>> {
        self.peers.deep_view()
    }
}

/// What is to be done with a datagram.
pub enum UdpAction<A> {
    /// The datagram is no packet.
    Invalid,
    /// A node made itself known.
    Registered,
    /// A node sent something: where it goes and as what, if the target is known, and what was
    /// sent, for the mesh where it does not get there.
    Send { target: Option<(A, Vec<u8>)>, from_id: String, to_id: String, payload: Vec<u8> },
}

/// What [`UdpAction`] holds.
#[verifier::ext_equal]
pub enum UdpActionView<A> {
    Invalid,
    Registered,
    Send { target: Option<(A, Seq<u8>)>, from_id: Seq<char>, to_id: Seq<char>, payload: Seq<u8> },
}

impl<A> UdpAction<A> {
    /// What the action holds.
    pub open spec fn shown(self) -> UdpActionView<A> {
        match self {
            UdpAction::Invalid => UdpActionView::Invalid,
            UdpAction::Registered => UdpActionView::Registered,
            UdpAction::Send { target, from_id, to_id, payload } => UdpActionView::Send {
                target: match target {
                    Some((addr, packet)) => Some((addr, packet@)),
                    None => None,
                },
                from_id: from_id@,
                to_id: to_id@,
                payload: payload@,
            },
        }
    }
}

/// What reaches a node: the sender and the payload.
pub open spec fn delivery(from_id: Seq<char>, payload: Seq<u8>) -> Result<Seq<u8>, RelayError> {
    packet_bytes(UDP_MAGIC@, TYPE_DELIVER, from_id, Seq::empty(), payload)
}

/// Where a packet for `to_id` goes, and as what, if the target is known.
pub open spec fn delivered_to<A: Copy>(
    peers: TableView<UdpPeer<A>>,
    from_id: Seq<char>,
    to_id: Seq<char>,
    payload: Seq<u8>,
) -> Result<Option<(A, Seq<u8>)>, RelayError> {
    if peers.has(to_id) {
        match delivery(from_id, payload) {
            Ok(packet) => Ok(Some((peers.at(to_id).addr, packet))),
            Err(error) => Err(error),
        }
    } else {
        Ok(None)
    }
}

/// What is known of the nodes after a datagram, and what is to be done with it.
pub open spec fn action_on<A: Copy>(
    peers: TableView<UdpPeer<A>>,
    buf: Seq<u8>,
    addr: A,
    now: u64,
) -> (TableView<UdpPeer<A>>, UdpActionView<A>) {
    match packet_in(UDP_MAGIC@, buf) {
        None => (peers, UdpActionView::Invalid),
        Some(RelayPacketView::Register { node_id }) => (
            peers.insert(node_id, UdpPeer { addr, last_seen: now }),
            UdpActionView::Registered,
        ),
        Some(RelayPacketView::Send { from_id, to_id, payload }) => {
            let after = peers.insert(from_id, UdpPeer { addr, last_seen: now });
            (
                after,
                UdpActionView::Send {
                    target: delivered_to(after, from_id, to_id, payload)->Ok_0,
                    from_id,
                    to_id,
                    payload,
                },
            )
        },
    }
}

/// Identifiers that were read from a packet fit into one.
proof fn lemma_ids_fit(frame: Seq<u8>)
    ensures
        packet_in(UDP_MAGIC@, frame) matches Some(RelayPacketView::Send { from_id, .. })
            ==> encode_utf8(from_id).len() <= MAX_ID_LEN,
        encode_utf8(Seq::<char>::empty()).len() == 0,
{
    broadcast use vstd::utf8::decode_utf8_encode_utf8;

}

impl<A: Copy> UdpPeers<A> {
    /// The table is well formed.
    pub closed spec fn wf(&self) -> bool {
        self.peers.wf()
    }

    /// No node is known yet.
    pub fn new() -> (r: Self)
        ensures
            r.wf(),
            r.deep_view() == TableView::<UdpPeer<A>>::empty(),
    {
        UdpPeers { peers: Table::new() }
    }

    /// Takes down where a node was heard of.
    pub fn upsert_peer(&mut self, node_id: &str, addr: A, now: u64)
        requires
            old(self).wf(),
        ensures
            final(self).wf(),
            final(self).deep_view() == old(self).deep_view().insert(
                node_id@,
                UdpPeer { addr, last_seen: now },
            ),
    {
        self.peers.insert(node_id.to_owned(), UdpPeer { addr, last_seen: now });
    }

    /// Where a packet for a node goes, and as what, if the node is known.
    pub fn deliver_local(&self, from_id: &str, to_id: &str, payload: &Vec<u8>) -> (r: Result<
        Option<(A, Vec<u8>)>,
        RelayError,
    >)
        requires
            self.wf(),
        ensures
            match delivered_to(self.deep_view(), from_id@, to_id@, payload@) {
                Ok(Some((addr, packet))) => r is Ok && r->Ok_0 is Some && (r->Ok_0->0).0 == addr
                    && (r->Ok_0->0).1@ == packet,
                Ok(None) => r == Ok::<Option<(A, Vec<u8>)>, RelayError>(None),
                Err(error) => r == Err::<Option<(A, Vec<u8>)>, RelayError>(error),
            },
    {
        proof {
            reveal_strlit("");
            assert(""@ =~= Seq::<char>::empty());
        }
        match self.peers.get(to_id) {
            None => Ok(None),
            Some(peer) => match build_packet(&UDP_MAGIC, TYPE_DELIVER, from_id, "", payload) {
                Ok(packet) => Ok(Some((peer.addr, packet))),
                Err(error) => Err(error),
            },
        }
    }

    /// Takes a datagram in and decides what is to be done with it.
    pub fn on_datagram(&mut self, buf: &Vec<u8>, addr: A, now: u64) -> (r: UdpAction<A>)
        requires
            old(self).wf(),
        ensures
            final(self).wf(),
            (final(self).deep_view(), r.shown()) == action_on(
                old(self).deep_view(),
                buf@,
                addr,
                now,
            ),
    {
        proof {
            lemma_ids_fit(buf@);
        }
        match parse_packet(&UDP_MAGIC, buf) {
            None => UdpAction::Invalid,
            Some(RelayPacket::Register { node_id }) => {
                self.upsert_peer(node_id.as_str(), addr, now);
                UdpAction::Registered
            },
            Some(RelayPacket::Send { from_id, to_id, payload }) => {
                self.upsert_peer(from_id.as_str(), addr, now);
                match self.deliver_local(from_id.as_str(), to_id.as_str(), &payload) {
                    Ok(target) => UdpAction::Send { target, from_id, to_id, payload },
                    Err(_) => UdpAction::Invalid,
                }
            },
        }
    }

    /// Forgets the nodes that were not heard of for five minutes.
    pub fn cleanup(&mut self, now: u64)
        requires
            old(self).wf(),
        ensures
            final(self).wf(),
            final(self).deep_view() == old(self).deep_view().retain(
                |peer: UdpPeer<A>| age(now, peer.last_seen) < PEER_TTL,
            ),
    {
        let keep = |peer: &UdpPeer<A>| -> (kept: bool)
            ensures
                kept == (age(now, peer.last_seen) < PEER_TTL),
            { now.saturating_sub(peer.last_seen) < PEER_TTL };
        self.peers.retain(
            keep,
            Ghost(|peer: UdpPeer<A>| age(now, peer.last_seen) < PEER_TTL),
        );
    }
}

/// What goes to the mesh after a packet was sent to its target, or was not: nothing where it was,
/// and the packet itself where it was not.
pub open spec fn handed_over(sent: bool, from_id: String, to_id: String, payload: Vec<u8>) -> Option<
    MeshOutgoingPacket,
> {
    if sent {
        None
    } else {
        Some(MeshOutgoingPacket { transport: MeshTransport::Udp, from_id, to_id, payload })
    }
}

/// What goes to the mesh after a packet was sent to its target, or was not.
pub fn after_send(sent: bool, from_id: String, to_id: String, payload: Vec<u8>) -> (r: Option<
    MeshOutgoingPacket,
>)
    ensures
        r == handed_over(sent, from_id, to_id, payload),
{
    if sent {
        None
    } else {
        Some(MeshOutgoingPacket { transport: MeshTransport::Udp, from_id, to_id, payload })
    }
}

/// A node that was heard of less than five minutes ago stays known where it was heard of, and one
/// that was not is forgotten.
pub proof fn law_cleanup<A: Copy>(peers: TableView<UdpPeer<A>>, now: u64, node_id: Seq<char>)
    ensures
        ({
            let after = peers.retain(|peer: UdpPeer<A>| age(now, peer.last_seen) < PEER_TTL);
            &&& after.has(node_id) <==> peers.has(node_id) && age(
                now,
                peers.at(node_id).last_seen,
            ) < PEER_TTL
            &&& after.has(node_id) ==> after.at(node_id) == peers.at(node_id)
        }),
{
}

/// What a node sends reaches the address at which its target was last heard of, and says who sent
/// it and what; the sender is known from then on.
pub proof fn law_send_reaches_last_address<A: Copy>(
    peers: TableView<UdpPeer<A>>,
    buf: Seq<u8>,
    addr: A,
    now: u64,
)
    ensures
        action_on(peers, buf, addr, now).1 matches UdpActionView::Send {
            target,
            from_id,
            to_id,
            payload,
        } ==> {
            let after = action_on(peers, buf, addr, now).0;
            &&& after.at(from_id) == (UdpPeer { addr, last_seen: now })
            &&& target is Some <==> after.has(to_id)
            &&& target matches Some((to, packet)) ==> to == after.at(to_id).addr && delivery(
                from_id,
                payload,
            ) == Ok::<Seq<u8>, RelayError>(packet)
        },
{
    lemma_ids_fit(buf);
}

/// What the relay makes of a datagram: a registration is noted under the address that it came from,
/// and so is the sender of a packet; the packet is meant for the node that it names, with the
/// payload that it carries. No other address changes, and none at all for what is not understood.
pub proof fn law_datagram<A: Copy>(
    peers: TableView<UdpPeer<A>>,
    buf: Seq<u8>,
    addr: A,
    now: u64,
    other: Seq<char>,
)
    ensures
        ({
            let (after, action) = action_on(peers, buf, addr, now);
            match packet_in(UDP_MAGIC@, buf) {
                None => after == peers && action is Invalid,
                Some(RelayPacketView::Register { node_id }) => {
                    &&& action is Registered
                    &&& after.has(node_id)
                    &&& after.at(node_id).addr == addr
                    &&& after.at(node_id).last_seen == now
                    &&& other != node_id ==> after.find(other) == peers.find(other)
                },
                Some(RelayPacketView::Send { from_id, to_id, payload }) => {
                    &&& action is Send
                    &&& action->Send_from_id == from_id
                    &&& action->Send_to_id == to_id
                    &&& action->Send_payload == payload
                    &&& after.has(from_id)
                    &&& after.at(from_id).addr == addr
                    &&& after.at(from_id).last_seen == now
                    &&& other != from_id ==> after.find(other) == peers.find(other)
                },
            }
        }),
{
}

/// A packet for a node whose address is known goes to that address as a delivery from its sender
/// with its payload. For any other node there is no address.
pub proof fn law_delivery<A: Copy>(
    peers: TableView<UdpPeer<A>>,
    from_id: Seq<char>,
    to_id: Seq<char>,
    payload: Seq<u8>,
)
    ensures
        ({
            let made = delivered_to(peers, from_id, to_id, payload);
            &&& !peers.has(to_id) ==> made == Ok::<Option<(A, Seq<u8>)>, RelayError>(None)
            &&& peers.has(to_id) ==> (made is Ok <==> encode_utf8(from_id).len() <= 64)
            &&& peers.has(to_id) && made is Ok ==> {
                let (to, packet) = made->Ok_0->0;
                &&& made->Ok_0 is Some
                &&& to == peers.at(to_id).addr
                &&& packet == UDP_MAGIC@ + seq![3u8, encode_utf8(from_id).len() as u8, 0u8, 0u8]
                    + encode_utf8(from_id) + payload
            }
        }),
{
    assert(encode_utf8(Seq::<char>::empty()).len() == 0) by {
        lemma_ids_fit(Seq::empty());
    }
    assert(encode_utf8(Seq::<char>::empty()) =~= Seq::<u8>::empty());
    if let Ok(packet) = delivery(from_id, payload) {
        assert(packet =~= UDP_MAGIC@ + seq![3u8, encode_utf8(from_id).len() as u8, 0u8, 0u8]
            + encode_utf8(from_id) + payload);
    }
}

/// An address is forgotten five minutes after the node was last heard.
pub proof fn law_addresses_last_five_minutes(seen: u64, now: u64)
    requires
        seen <= now,
    ensures
        age(now, seen) < PEER_TTL <==> now - seen < 300_000_000_000,
        age(seen, now) == 0,
{
}

/// A packet that was not sent to its target goes to the mesh as it is, to be sent by a relay of the
/// same kind; one that was does not.
pub proof fn law_unsent_packets_go_to_the_mesh(
    sent: bool,
    from_id: String,
    to_id: String,
    payload: Vec<u8>,
)
    ensures
        handed_over(sent, from_id, to_id, payload) is Some <==> !sent,
        handed_over(sent, from_id, to_id, payload) matches Some(packet) ==> {
            &&& packet.transport == MeshTransport::Udp
            &&& packet.from_id@ == from_id@
            &&& packet.to_id@ == to_id@
            &&& packet.payload@ == payload@
        },
{
}

} // verus!
