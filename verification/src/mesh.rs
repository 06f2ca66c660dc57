//! The mesh of servers over which relays reach nodes that are connected elsewhere.
use base64::engine::general_purpose::STANDARD;
use base64::Engine;
use rustls::pki_types::ServerName;
use vstd::prelude::*;

use crate::config::{MeshPeer, MeshPeerView};
use crate::ids::{is_id, new_id};
use crate::table::{Table, TableView};
use crate::text::{list_holds, same_text, trim, trimmed};
use crate::timed::{age, law_newest_survives, law_pruned, prune, pruned, Timed};

verus! {

/// How long a server waits before it connects to a peer again, in milliseconds.
pub const RECONNECT_DELAY_MS: u64 = 2_000;

/// How long a server waits for a relay to deliver a packet, in milliseconds.
pub const LOCAL_DELIVER_TIMEOUT_MS: u64 = 250;

/// How long a message is known by its identifier, in nanoseconds: two minutes.
pub const SEEN_TTL: u64 = 120_000_000_000;

/// How many messages are known by their identifiers at most.
pub const MAX_SEEN_IDS: usize = 8192;

/// How long it is remembered through which peer a node was heard of, in nanoseconds: five minutes.
pub const ROUTE_TTL: u64 = 300_000_000_000;

/// Of how many nodes that is remembered at most.
pub const MAX_ROUTE_HINTS: usize = 16384;

/// The relay that a packet belongs to.
#[derive(Clone, Copy, Debug, PartialEq, Eq, Structural)]
pub enum MeshTransport {
    Stream,
    Udp,
}

/// The standard base64 text of some bytes, with padding.
pub uninterp spec fn base64_of(bytes: Seq<u8>) -> Seq<char>;

/// The bytes that a standard base64 text writes, if it writes any.
pub uninterp spec fn base64_bytes(text: Seq<char>) -> Option<Seq<u8>>;

/// Whether a text of four characters for each three bytes begun fits into memory.
pub open spec fn base64_fits(bytes: Seq<u8>) -> bool {
    (bytes.len() + 2) / 3 * 4 <= isize::MAX
}

/// `STANDARD.encode` of the base64 crate writes bytes as text from which they can be read back. It
/// panics where the text is longer than an allocation can be, so the bytes are few enough.
#[verifier::external_body]
pub(crate) fn encode_base64(bytes: &Vec<u8>) -> (r: String)
    requires
        base64_fits(bytes@),
    ensures
        r@ == base64_of(bytes@),
        base64_bytes(r@) == Some(bytes@),
{
    STANDARD.encode(bytes)
}

/// `STANDARD.decode` of the base64 crate reads the bytes that a text writes, if it writes any.
#[verifier::external_body]
pub(crate) fn decode_base64(text: &str) -> (r: Option<Vec<u8>>)
    ensures
        r.deep_view() == base64_bytes(text@),
{
    STANDARD.decode(text.as_bytes()).ok()
}

/// What servers of the mesh tell each other.
pub enum MeshFrame {
    Hello { server_id: String },
    Relay {
        message_id: String,
        transport: MeshTransport,
        from_id: String,
        to_id: String,
        payload_b64: String,
        hops_left: u8,
    },
}

/// What [`MeshFrame`] holds.
#[verifier::ext_equal]
pub enum MeshFrameView {
    Hello { server_id: Seq<char> },
    Relay {
        message_id: Seq<char>,
        transport: MeshTransport,
        from_id: Seq<char>,
        to_id: Seq<char>,
        payload_b64: Seq<char>,
        hops_left: u8,
    },
}

impl DeepView for MeshFrame {
    type V = MeshFrameView;

    open spec fn deep_view(&self) -> MeshFrameView {
        match self {
            MeshFrame::Hello { server_id } => MeshFrameView::Hello { server_id: server_id@ },
            MeshFrame::Relay { message_id, transport, from_id, to_id, payload_b64, hops_left } =>
                MeshFrameView::Relay {
                message_id: message_id@,
                transport: *transport,
                from_id: from_id@,
                to_id: to_id@,
                payload_b64: payload_b64@,
                hops_left: *hops_left,
            },
        }
    }
}

impl Clone for MeshFrame {
    fn clone(&self) -> (r: Self)
        ensures
            r.deep_view() == self.deep_view(),
    {
        match self {
            MeshFrame::Hello { server_id } => MeshFrame::Hello { server_id: server_id.clone() },
            MeshFrame::Relay { message_id, transport, from_id, to_id, payload_b64, hops_left } =>
                MeshFrame::Relay {
                message_id: message_id.clone(),
                transport: *transport,
                from_id: from_id.clone(),
                to_id: to_id.clone(),
                payload_b64: payload_b64.clone(),
                hops_left: *hops_left,
            },
        }
    }
}

/// A packet that a relay hands to the mesh.
pub struct MeshOutgoingPacket {
    pub transport: MeshTransport,
    pub from_id: String,
    pub to_id: String,
    pub payload: Vec<u8>,
}

/// A message that came over the mesh.
pub struct MeshMessage {
    pub message_id: String,
    pub transport: MeshTransport,
    pub from_id: String,
    pub to_id: String,
    pub payload: Vec<u8>,
    pub hops_left: u8,
}

/// What [`MeshMessage`] holds.
#[verifier::ext_equal]
pub struct MeshMessageView {
    pub message_id: Seq<char>,
    pub transport: MeshTransport,
    pub from_id: Seq<char>,
    pub to_id: Seq<char>,
    pub payload: Seq<u8>,
    pub hops_left: u8,
}

impl DeepView for MeshMessage {
    type V = MeshMessageView;

    open spec fn deep_view(&self) -> MeshMessageView {
        MeshMessageView {
            message_id: self.message_id@,
            transport: self.transport,
            from_id: self.from_id@,
            to_id: self.to_id@,
            payload: self.payload@,
            hops_left: self.hops_left,
        }
    }
}

/// Through which peer a node was last heard of, and when.
pub struct RouteHint {
    pub peer_id: String,
    pub updated_at: u64,
}

/// What [`RouteHint`] holds.
#[verifier::ext_equal]
pub struct RouteHintView {
    pub peer_id: Seq<char>,
    pub updated_at: u64,
}

impl DeepView for RouteHint {
    type V = RouteHintView;

    open spec fn deep_view(&self) -> RouteHintView {
        RouteHintView { peer_id: self.peer_id@, updated_at: self.updated_at }
    }
}

impl Timed for RouteHint {
    open spec fn stamp(value: RouteHintView) -> u64 {
        value.updated_at
    }

    fn time(&self) -> (r: u64) {
        self.updated_at
    }
}

/// Why the mesh does not start, a peer is turned away or not connected to, or a frame is dropped.
#[derive(Debug)]
pub enum MeshError {
    ServerIdEmpty,
    NoHops,
    PeerIdEmpty,
    PeerIsSelf,
    PeerMismatch { expected: String, got: String },
    NoPeersAllowed,
    PeerNotAllowed(String),
    InvalidServerName(String),
    ExpectedHello,
    PayloadDecode,
}

/// What [`MeshError`] holds.
#[verifier::ext_equal]
pub enum MeshErrorView {
    ServerIdEmpty,
    NoHops,
    PeerIdEmpty,
    PeerIsSelf,
    PeerMismatch { expected: Seq<char>, got: Seq<char> },
    NoPeersAllowed,
    PeerNotAllowed(Seq<char>),
    InvalidServerName(Seq<char>),
    ExpectedHello,
    PayloadDecode,
}

impl DeepView for MeshError {
    type V = MeshErrorView;

    open spec fn deep_view(&self) -> MeshErrorView {
        match self {
            MeshError::ServerIdEmpty => MeshErrorView::ServerIdEmpty,
            MeshError::NoHops => MeshErrorView::NoHops,
            MeshError::PeerIdEmpty => MeshErrorView::PeerIdEmpty,
            MeshError::PeerIsSelf => MeshErrorView::PeerIsSelf,
            MeshError::PeerMismatch { expected, got } => MeshErrorView::PeerMismatch {
                expected: expected@,
                got: got@,
            },
            MeshError::NoPeersAllowed => MeshErrorView::NoPeersAllowed,
            MeshError::PeerNotAllowed(id) => MeshErrorView::PeerNotAllowed(id@),
            MeshError::InvalidServerName(id) => MeshErrorView::InvalidServerName(id@),
            MeshError::ExpectedHello => MeshErrorView::ExpectedHello,
            MeshError::PayloadDecode => MeshErrorView::PayloadDecode,
        }
    }
}

impl MeshErrorView {
    /// The error in words.
    pub open spec fn in_words(self) -> Seq<char> {
        match self {
            MeshErrorView::ServerIdEmpty => "mesh server id must be non-empty"@,
            MeshErrorView::NoHops => "mesh max hops must be > 0"@,
            MeshErrorView::PeerIdEmpty => "mesh peer id is empty"@,
            MeshErrorView::PeerIsSelf => "mesh peer id matched local server id"@,
            MeshErrorView::PeerMismatch { expected, got } => "mesh peer id mismatch: expected "@
                + expected + ", got "@ + got,
            MeshErrorView::NoPeersAllowed => "mesh peer allowlist is empty"@,
            MeshErrorView::PeerNotAllowed(id) => "mesh peer "@ + id + " is not in allowlist"@,
            MeshErrorView::InvalidServerName(id) => "mesh peer "@ + id
                + " has invalid tls server name; expected DNS-like identifier"@,
            MeshErrorView::ExpectedHello => "mesh expected hello frame"@,
            MeshErrorView::PayloadDecode => "mesh payload decode failed"@,
        }
    }
}

impl MeshError {
    /// The error in words.
    pub fn text(&self) -> (r: String)
        ensures
            r@ == self.deep_view().in_words(),
    {
        match self {
            MeshError::ServerIdEmpty => "mesh server id must be non-empty".to_owned(),
            MeshError::NoHops => "mesh max hops must be > 0".to_owned(),
            MeshError::PeerIdEmpty => "mesh peer id is empty".to_owned(),
            MeshError::PeerIsSelf => "mesh peer id matched local server id".to_owned(),
            MeshError::PeerMismatch { expected, got } => {
                let mut out: String = "mesh peer id mismatch: expected ".to_owned();
                out.append(expected.as_str());
                out.append(", got ");
                out.append(got.as_str());
                out
            },
            MeshError::NoPeersAllowed => "mesh peer allowlist is empty".to_owned(),
            MeshError::PeerNotAllowed(id) => {
                let mut out: String = "mesh peer ".to_owned();
                out.append(id.as_str());
                out.append(" is not in allowlist");
                out
            },
            MeshError::InvalidServerName(id) => {
                let mut out: String = "mesh peer ".to_owned();
                out.append(id.as_str());
                out.append(" has invalid tls server name; expected DNS-like identifier");
                out
            },
            MeshError::ExpectedHello => "mesh expected hello frame".to_owned(),
            MeshError::PayloadDecode => "mesh payload decode failed".to_owned(),
        }
    }
}

/// What a server knows of the mesh: its own name, how far its messages go, which peers it lets in,
/// the connection of each peer, the messages that it has seen, and through which peers nodes were
/// heard of.
pub struct Mesh {
    server_id: String,
    max_hops: u8,
    allowed: Vec<String>,
    peers: Table<u64>,
    seen: Table<u64>,
    routes: Table<RouteHint>,
}

/// What [`Mesh`] holds.
#[verifier::ext_equal]
pub struct MeshView {
    pub server_id: Seq<char>,
    pub max_hops: u8,
    pub allowed: Seq<Seq<char>>,
    pub peers: TableView<u64>,
    pub seen: TableView<u64>,
    pub routes: TableView<RouteHintView>,
}

impl DeepView for Mesh {
    type V = MeshView;

    closed spec fn deep_view(&self) -> MeshView {
        MeshView {
            server_id: self.server_id@,
            max_hops: self.max_hops,
            allowed: self.allowed.deep_view(),
            peers: self.peers.deep_view(),
            seen: self.seen.deep_view(),
            routes: self.routes.deep_view(),
        }
    }
}

impl MeshView {
    /// The tables are well formed, and those that grow with the traffic are bounded.
    pub open spec fn wf(self) -> bool {
        &&& self.peers.wf()
        &&& self.seen.wf()
        &&& self.routes.wf()
        &&& self.seen.keys.len() <= MAX_SEEN_IDS
        &&& self.routes.keys.len() <= MAX_ROUTE_HINTS
    }

    /// Why a peer is turned away, if it is.
    pub open spec fn peer_refusal(self, expected: Option<Seq<char>>, peer_id: Seq<char>) -> Option<
        MeshErrorView,
    > {
        if peer_id.len() == 0 {
            Some(MeshErrorView::PeerIdEmpty)
        } else if peer_id == self.server_id {
            Some(MeshErrorView::PeerIsSelf)
        } else if expected is Some && expected->0 != peer_id {
            Some(MeshErrorView::PeerMismatch { expected: expected->0, got: peer_id })
        } else if self.allowed.len() == 0 {
            Some(MeshErrorView::NoPeersAllowed)
        } else if !self.allowed.contains(peer_id) {
            Some(MeshErrorView::PeerNotAllowed(peer_id))
        } else {
            None
        }
    }

    /// The mesh with a connection of a peer.
    pub open spec fn connected(self, peer_id: Seq<char>, conn: u64) -> Self {
        MeshView { peers: self.peers.insert(peer_id, conn), ..self }
    }

    /// The mesh without a connection of a peer, if the peer has no other by now.
    pub open spec fn disconnected(self, peer_id: Seq<char>, conn: u64) -> Self {
        MeshView {
            peers: if self.peers.find(peer_id) == Some(conn) {
                self.peers.remove(peer_id)
            } else {
                self.peers
            },
            ..self
        }
    }

    /// Whether a message is known by its identifier.
    pub open spec fn knows(self, message_id: Seq<char>, now: u64) -> bool {
        self.seen.has(message_id) && age(now, self.seen.at(message_id)) < SEEN_TTL
    }

    /// What is known after a message was seen that was not known.
    pub open spec fn remembered(self, message_id: Seq<char>, now: u64) -> Self {
        if self.knows(message_id, now) {
            self
        } else {
            MeshView {
                seen: pruned::<u64>(
                    self.seen.insert(message_id, now),
                    now,
                    SEEN_TTL,
                    MAX_SEEN_IDS as nat,
                ),
                ..self
            }
        }
    }

    /// What is known after a node was heard of through a peer.
    pub open spec fn learned(self, node_id: Seq<char>, peer_id: Seq<char>, now: u64) -> Self {
        if node_id.len() == 0 || peer_id.len() == 0 {
            self
        } else {
            MeshView {
                routes: pruned::<RouteHint>(
                    self.routes.insert(node_id, RouteHintView { peer_id, updated_at: now }),
                    now,
                    ROUTE_TTL,
                    MAX_ROUTE_HINTS as nat,
                ),
                ..self
            }
        }
    }

    /// Through which peer a node was heard of, not too long ago.
    pub open spec fn route_to(self, node_id: Seq<char>, now: u64) -> Option<Seq<char>> {
        if self.routes.has(node_id) && age(now, self.routes.at(node_id).updated_at) <= ROUTE_TTL {
            Some(self.routes.at(node_id).peer_id)
        } else {
            None
        }
    }

    /// What is known after a route was looked up: one that is too old is forgotten.
    pub open spec fn looked_up(self, node_id: Seq<char>, now: u64) -> Self {
        if self.routes.has(node_id) && self.route_to(node_id, now) is None {
            MeshView { routes: self.routes.remove(node_id), ..self }
        } else {
            self
        }
    }

    /// The connection over which a node is to be reached, where its route does not lead back to
    /// where the message came from.
    pub open spec fn direct(self, exclude: Option<Seq<char>>, target: Seq<char>, now: u64) -> Option<
        u64,
    > {
        match self.route_to(target, now) {
            Some(peer_id) => if exclude != Some(peer_id) {
                self.peers.find(peer_id)
            } else {
                None
            },
            None => None,
        }
    }
}

/// The connections of all peers but one, in their order.
pub open spec fn flood(peers: TableView<u64>, exclude: Option<Seq<char>>) -> Seq<u64>
    decreases peers.keys.len(),
{
    if peers.keys.len() == 0 {
        Seq::empty()
    } else {
        let rest = flood(TableView { keys: peers.keys.drop_last(), ..peers }, exclude);
        if exclude == Some(peers.keys.last()) {
            rest
        } else {
            rest.push(peers.map[peers.keys.last()])
        }
    }
}

/// Where a frame goes: over one connection where that is known and works, else over all of these.
pub struct Forwarding {
    pub direct: Option<u64>,
    pub flood: Vec<u64>,
}

/// The connections over which a frame goes after the direct one was tried: no others where the
/// frame was sent over that one, and all of the flood where it was not, or where there is none.
pub open spec fn targets_left(flood: Seq<u64>, direct_sent: bool) -> Seq<u64> {
    if direct_sent {
        Seq::empty()
    } else {
        flood
    }
}

/// The connections over which a frame goes after the direct one was tried.
pub fn next_targets(forwarding: Forwarding, direct_sent: bool) -> (r: Vec<u64>)
    ensures
        r@ == targets_left(forwarding.flood@, direct_sent),
{
    if direct_sent {
        Vec::new()
    } else {
        forwarding.flood
    }
}

/// The frame with which a packet starts on its way.
pub open spec fn first_frame(
    packet: MeshOutgoingPacket,
    message_id: Seq<char>,
    max_hops: u8,
) -> MeshFrameView {
    MeshFrameView::Relay {
        message_id,
        transport: packet.transport,
        from_id: packet.from_id@,
        to_id: packet.to_id@,
        payload_b64: base64_of(packet.payload@),
        hops_left: max_hops,
    }
}

/// The frame with which a message goes on, if it does: it was not delivered, and may go further.
pub open spec fn next_frame(message: MeshMessageView, delivered: bool) -> Option<MeshFrameView> {
    if delivered || message.hops_left == 0 {
        None
    } else {
        Some(
            MeshFrameView::Relay {
                message_id: message.message_id,
                transport: message.transport,
                from_id: message.from_id,
                to_id: message.to_id,
                payload_b64: base64_of(message.payload),
                hops_left: (message.hops_left - 1) as u8,
            },
        )
    }
}

/// What is known after a frame came from a peer, and the message in it that is to be delivered, if
/// there is one that was not seen before.
pub open spec fn handled(mesh: MeshView, source: Seq<char>, frame: MeshFrameView, now: u64) -> (
    MeshView,
    Result<Option<MeshMessageView>, MeshErrorView>,
) {
    match frame {
        MeshFrameView::Hello { .. } => (mesh, Ok(None)),
        MeshFrameView::Relay { message_id, transport, from_id, to_id, payload_b64, hops_left } => {
            if mesh.knows(message_id, now) {
                (mesh, Ok(None))
            } else {
                let after = mesh.remembered(message_id, now).learned(from_id, source, now);
                match base64_bytes(payload_b64) {
                    None => (after, Err(MeshErrorView::PayloadDecode)),
                    Some(payload) => (
                        after,
                        Ok(
                            Some(
                                MeshMessageView {
                                    message_id,
                                    transport,
                                    from_id,
                                    to_id,
                                    payload,
                                    hops_left,
                                },
                            ),
                        ),
                    ),
                }
            }
        },
    }
}

/// A result, seen through what its value or its error holds.
pub open spec fn mesh_outcome<T: DeepView>(r: Result<T, MeshError>) -> Result<T::V, MeshErrorView> {
    match r {
        Ok(value) => Ok(value.deep_view()),
        Err(error) => Err(error.deep_view()),
    }
}

/// Whether a certificate can be asked for under this name: a DNS name or an address.
pub uninterp spec fn is_server_name(text: Seq<char>) -> bool;

/// `rustls::pki_types::ServerName` takes the text of a DNS name or of an address, and refuses every
/// other text. Which texts those are is not stated; it depends on the text alone.
#[verifier::external_body]
fn names_server(text: &str) -> (r: bool)
    ensures
        r == is_server_name(text@),
{
    ServerName::try_from(text).is_ok()
}

/// The name under which a server asks a peer for its certificate: the name of the peer, where that
/// can be a server's name.
pub open spec fn server_name_of(peer: MeshPeerView, valid: bool) -> Result<
    Seq<char>,
    MeshErrorView,
> {
    if valid {
        Ok(peer.id)
    } else {
        Err(MeshErrorView::InvalidServerName(peer.id))
    }
}

/// The name under which a server asks a peer for its certificate, by whether the name of the peer
/// can be a server's name.
pub fn peer_server_name(peer: &MeshPeer, valid: bool) -> (r: Result<String, MeshError>)
    ensures
        mesh_outcome(r) == server_name_of(peer.deep_view(), valid),
{
    if valid {
        Ok(peer.id.clone())
    } else {
        Err(MeshError::InvalidServerName(peer.id.clone()))
    }
}

/// The name under which a server asks a peer for its certificate.
pub fn server_name(peer: &MeshPeer) -> (r: Result<String, MeshError>)
    ensures
        mesh_outcome(r) == server_name_of(peer.deep_view(), is_server_name(peer.id@)),
{
    peer_server_name(peer, names_server(peer.id.as_str()))
}

/// The names of peers.
pub open spec fn peer_ids(peers: Seq<MeshPeerView>) -> Seq<Seq<char>> {
    Seq::new(peers.len(), |i: int| peers[i].id)
}

/// The name that a peer gives with its first frame.
pub fn hello_from(frame: MeshFrame) -> (r: Result<String, MeshError>)
    ensures
        mesh_outcome(r) == (match frame.deep_view() {
            MeshFrameView::Hello { server_id } => Ok::<Seq<char>, MeshErrorView>(server_id),
            _ => Err(MeshErrorView::ExpectedHello),
        }),
{
    match frame {
        MeshFrame::Hello { server_id } => Ok(server_id),
        _ => Err(MeshError::ExpectedHello),
    }
}

/// The frame with which a message goes on after the relay was asked to deliver it, if it does.
pub fn after_delivery(message: MeshMessage, delivered: bool) -> (r: Option<MeshFrame>)
    requires
        base64_fits(message.payload@),
    ensures
        r.deep_view() == next_frame(message.deep_view(), delivered),
        r matches Some(MeshFrame::Relay { payload_b64, .. }) ==> base64_bytes(payload_b64@) == Some(
            message.payload@,
        ),
{
    if delivered || message.hops_left == 0 {
        return None;
    }
    Some(
        MeshFrame::Relay {
            message_id: message.message_id,
            transport: message.transport,
            from_id: message.from_id,
            to_id: message.to_id,
            payload_b64: encode_base64(&message.payload),
            hops_left: message.hops_left - 1,
        },
    )
}

impl Mesh {
    /// The tables are well formed and bounded.
    pub closed spec fn wf(&self) -> bool {
        &&& self.peers.wf()
        &&& self.seen.wf()
        &&& self.routes.wf()
        &&& self.seen.deep_view().keys.len() <= MAX_SEEN_IDS
        &&& self.routes.deep_view().keys.len() <= MAX_ROUTE_HINTS
    }

    /// What a well-formed mesh holds is well formed.
    pub proof fn lemma_wf(&self)
        requires
            self.wf(),
        ensures
            self.deep_view().wf(),
    {
        self.peers.lemma_wf();
        self.seen.lemma_wf();
        self.routes.lemma_wf();
    }

    /// A server of the mesh that has heard of nothing yet.
    pub fn new(server_id: String, max_hops: u8, peers: &Vec<MeshPeer>) -> (r: Result<
        Self,
        MeshError,
    >)
        ensures
            match r {
                Ok(mesh) => {
                    &&& trimmed(server_id@).len() > 0
                    &&& max_hops > 0
                    &&& mesh.wf()
                    &&& mesh.deep_view() == (MeshView {
                        server_id: server_id@,
                        max_hops,
                        allowed: peer_ids(peers.deep_view()),
                        peers: TableView::empty(),
                        seen: TableView::empty(),
                        routes: TableView::empty(),
                    })
                },
                Err(error) => error.deep_view() == (if trimmed(server_id@).len() == 0 {
                    MeshErrorView::ServerIdEmpty
                } else {
                    MeshErrorView::NoHops
                }) && (trimmed(server_id@).len() == 0 || max_hops == 0),
            },
    {
        if trim(server_id.as_str()).as_str().is_empty() {
            return Err(MeshError::ServerIdEmpty);
        }
        if max_hops == 0 {
            return Err(MeshError::NoHops);
        }
        let ghost all = peers.deep_view();
        let mut allowed: Vec<String> = Vec::new();
        let mut i: usize = 0;
        assert(allowed.deep_view() =~= peer_ids(all.take(0)));
        while i < peers.len()
            invariant
                i <= peers@.len(),
                all == peers.deep_view(),
                allowed.deep_view() == peer_ids(all.take(i as int)),
            decreases peers.len() - i,
        {
            let ghost before = allowed.deep_view();
            let id: String = peers[i].id.clone();
            allowed.push(id);
            assert(allowed.deep_view() =~= before.push(id@));
            assert(peer_ids(all.take(i + 1)) =~= before.push(id@));
            i = i + 1;
        }
        assert(all.take(i as int) =~= all);
        Ok(
            Mesh {
                server_id,
                max_hops,
                allowed,
                peers: Table::new(),
                seen: Table::new(),
                routes: Table::new(),
            },
        )
    }

    /// The frame with which the server says who it is.
    pub fn hello(&self) -> (r: MeshFrame)
        ensures
            r.deep_view() == (MeshFrameView::Hello { server_id: self.deep_view().server_id }),
    {
        MeshFrame::Hello { server_id: self.server_id.clone() }
    }

    /// Turns away a peer that is not the one expected or not allowed.
    pub fn validate_peer(&self, expected: Option<&str>, peer_id: &str) -> (r: Result<
        (),
        MeshError,
    >)
        ensures
            match self.deep_view().peer_refusal(expected.deep_view(), peer_id@) {
                Some(error) => r is Err && r->Err_0.deep_view() == error,
                None => r is Ok,
            },
    {
        if peer_id.is_empty() {
            return Err(MeshError::PeerIdEmpty);
        }
        if same_text(peer_id, self.server_id.as_str()) {
            return Err(MeshError::PeerIsSelf);
        }
        if let Some(expected) = expected {
            if !same_text(expected, peer_id) {
                return Err(
                    MeshError::PeerMismatch {
                        expected: expected.to_owned(),
                        got: peer_id.to_owned(),
                    },
                );
            }
        }
        assert(self.allowed.deep_view().len() == self.allowed@.len());
        if self.allowed.len() == 0 {
            return Err(MeshError::NoPeersAllowed);
        }
        if !list_holds(&self.allowed, peer_id) {
            return Err(MeshError::PeerNotAllowed(peer_id.to_owned()));
        }
        Ok(())
    }

    /// Takes down the connection of a peer.
    pub fn connect(&mut self, peer_id: &str, conn: u64)
        requires
            old(self).wf(),
        ensures
            final(self).wf(),
            final(self).deep_view() == old(self).deep_view().connected(peer_id@, conn),
    {
        self.peers.insert(peer_id.to_owned(), conn);
    }

    /// Forgets the connection of a peer, unless the peer has another by now.
    pub fn disconnect(&mut self, peer_id: &str, conn: u64)
        requires
            old(self).wf(),
        ensures
            final(self).wf(),
            final(self).deep_view() == old(self).deep_view().disconnected(peer_id@, conn),
    {
        let current: bool = match self.peers.get(peer_id) {
            Some(known) => *known == conn,
            None => false,
        };
        if current {
            self.peers.remove(peer_id);
        }
    }

    /// Takes down the identifier of a message; `false` where it was known.
    pub fn remember_message(&mut self, message_id: &str, now: u64) -> (r: bool)
        requires
            old(self).wf(),
        ensures
            final(self).wf(),
            r == !old(self).deep_view().knows(message_id@, now),
            final(self).deep_view() == old(self).deep_view().remembered(message_id@, now),
    {
        if let Some(seen_at) = self.seen.get(message_id) {
            if now.saturating_sub(*seen_at) < SEEN_TTL {
                return false;
            }
        }
        proof {
            self.seen.lemma_wf();
            self.seen.deep_view().lemma_insert(message_id@, now);
            law_pruned::<u64>(
                self.seen.deep_view().insert(message_id@, now),
                now,
                SEEN_TTL,
                MAX_SEEN_IDS as nat,
            );
        }
        self.seen.insert(message_id.to_owned(), now);
        prune(&mut self.seen, now, SEEN_TTL, MAX_SEEN_IDS);
        true
    }

    /// Takes down through which peer a node was heard of.
    pub fn learn_route(&mut self, node_id: &str, peer_id: &str, now: u64)
        requires
            old(self).wf(),
        ensures
            final(self).wf(),
            final(self).deep_view() == old(self).deep_view().learned(node_id@, peer_id@, now),
    {
        if node_id.is_empty() || peer_id.is_empty() {
            return ;
        }
        let hint = RouteHint { peer_id: peer_id.to_owned(), updated_at: now };
        proof {
            self.routes.lemma_wf();
            self.routes.deep_view().lemma_insert(node_id@, hint.deep_view());
            law_pruned::<RouteHint>(
                self.routes.deep_view().insert(node_id@, hint.deep_view()),
                now,
                ROUTE_TTL,
                MAX_ROUTE_HINTS as nat,
            );
        }
        self.routes.insert(node_id.to_owned(), hint);
        prune(&mut self.routes, now, ROUTE_TTL, MAX_ROUTE_HINTS);
    }

    /// Through which peer a node was heard of, not too long ago.
    pub fn lookup_route(&mut self, node_id: &str, now: u64) -> (r: Option<String>)
        requires
            old(self).wf(),
        ensures
            final(self).wf(),
            r.deep_view() == old(self).deep_view().route_to(node_id@, now),
            final(self).deep_view() == old(self).deep_view().looked_up(node_id@, now),
    {
        let (peer_id, fresh): (String, bool) = match self.routes.get(node_id) {
            Some(hint) => (
                hint.peer_id.clone(),
                now.saturating_sub(hint.updated_at) <= ROUTE_TTL,
            ),
            None => {
                return None;
            },
        };
        if fresh {
            Some(peer_id)
        } else {
            proof {
                self.routes.lemma_wf();
                self.routes.deep_view().lemma_remove(node_id@);
            }
            self.routes.remove(node_id);
            None
        }
    }

    /// The connections of all peers but one.
    fn flood_targets(&self, exclude: Option<&str>) -> (r: Vec<u64>)
        requires
            self.wf(),
        ensures
            r@ == flood(self.deep_view().peers, exclude.deep_view()),
    {
        let ghost view = self.peers.deep_view();
        let mut out: Vec<u64> = Vec::new();
        let mut i: usize = 0;
        let total: usize = self.peers.len();
        assert(out@ =~= flood(TableView { keys: view.keys.take(0), ..view }, exclude.deep_view()));
        while i < total
            invariant
                self.wf(),
                view == self.peers.deep_view(),
                total == view.keys.len(),
                i <= total,
                out@ == flood(
                    TableView { keys: view.keys.take(i as int), ..view },
                    exclude.deep_view(),
                ),
            decreases total - i,
        {
            let excluded: bool = match exclude {
                Some(id) => same_text(self.peers.key_at(i).as_str(), id),
                None => false,
            };
            let conn: u64 = *self.peers.value_at(i);
            proof {
                let more = TableView { keys: view.keys.take(i + 1), ..view };
                assert(more.keys.drop_last() =~= view.keys.take(i as int));
                assert(more.keys.last() == view.keys[i as int]);
            }
            if !excluded {
                out.push(conn);
            }
            i = i + 1;
        }
        assert(view.keys.take(i as int) =~= view.keys);
        out
    }

    /// Where a frame for a node goes.
    pub fn forward_to_target(&mut self, exclude: Option<&str>, target: &str, now: u64) -> (r:
        Forwarding)
        requires
            old(self).wf(),
        ensures
            final(self).wf(),
            final(self).deep_view() == old(self).deep_view().looked_up(target@, now),
            r.direct == old(self).deep_view().direct(exclude.deep_view(), target@, now),
            r.flood@ == flood(old(self).deep_view().peers, exclude.deep_view()),
    {
        let direct: Option<u64> = match self.lookup_route(target, now) {
            Some(peer_id) => {
                let excluded: bool = match exclude {
                    Some(id) => same_text(peer_id.as_str(), id),
                    None => false,
                };
                if excluded {
                    None
                } else {
                    match self.peers.get(peer_id.as_str()) {
                        Some(conn) => Some(*conn),
                        None => None,
                    }
                }
            },
            None => None,
        };
        Forwarding { direct, flood: self.flood_targets(exclude) }
    }

    /// Starts a packet on its way under an identifier.
    pub fn send(&mut self, packet: MeshOutgoingPacket, message_id: String, now: u64) -> (r:
        MeshFrame)
        requires
            old(self).wf(),
            base64_fits(packet.payload@),
        ensures
            final(self).wf(),
            final(self).deep_view() == old(self).deep_view().remembered(message_id@, now),
            r.deep_view() == first_frame(packet, message_id@, old(self).deep_view().max_hops),
            r matches MeshFrame::Relay { payload_b64, .. } ==> base64_bytes(payload_b64@) == Some(
                packet.payload@,
            ),
    {
        self.remember_message(message_id.as_str(), now);
        MeshFrame::Relay {
            message_id,
            transport: packet.transport,
            from_id: packet.from_id,
            to_id: packet.to_id,
            payload_b64: encode_base64(&packet.payload),
            hops_left: self.max_hops,
        }
    }

    /// Starts a packet on its way under a fresh identifier: the frame, and where it goes.
    pub fn dispatch(&mut self, packet: MeshOutgoingPacket, now: u64) -> (r: (
        MeshFrame,
        Forwarding,
    ))
        requires
            old(self).wf(),
            base64_fits(packet.payload@),
        ensures
            final(self).wf(),
            exists|message_id: Seq<char>|
                {
                    let mesh = #[trigger] old(self).deep_view().remembered(message_id, now);
                    &&& is_id(message_id)
                    &&& final(self).deep_view() == mesh.looked_up(packet.to_id@, now)
                    &&& r.0.deep_view() == first_frame(
                        packet,
                        message_id,
                        old(self).deep_view().max_hops,
                    )
                    &&& r.1.direct == mesh.direct(None, packet.to_id@, now)
                    &&& r.1.flood@ == flood(mesh.peers, None)
                },
            r.0 matches MeshFrame::Relay { payload_b64, .. } ==> base64_bytes(payload_b64@) == Some(
                packet.payload@,
            ),
    {
        let message_id: String = new_id();
        let to_id: String = packet.to_id.clone();
        let frame: MeshFrame = self.send(packet, message_id, now);
        let forwarding: Forwarding = self.forward_to_target(None, to_id.as_str(), now);
        (frame, forwarding)
    }

    /// Passes a message that came from a peer on after the relay was asked to deliver it: the
    /// frame, and where it goes, if it goes on.
    pub fn pass_on(
        &mut self,
        source: &str,
        message: MeshMessage,
        delivered: bool,
        now: u64,
    ) -> (r: Option<(MeshFrame, Forwarding)>)
        requires
            old(self).wf(),
            base64_fits(message.payload@),
        ensures
            final(self).wf(),
            match next_frame(message.deep_view(), delivered) {
                None => r is None && final(self).deep_view() == old(self).deep_view(),
                Some(frame) => {
                    let mesh = old(self).deep_view();
                    &&& final(self).deep_view() == mesh.looked_up(message.to_id@, now)
                    &&& r is Some
                    &&& (r->0).0.deep_view() == frame
                    &&& (r->0).1.direct == mesh.direct(Some(source@), message.to_id@, now)
                    &&& (r->0).1.flood@ == flood(mesh.peers, Some(source@))
                },
            },
            r matches Some((MeshFrame::Relay { payload_b64, .. }, _)) ==> base64_bytes(
                payload_b64@,
            ) == Some(message.payload@),
    {
        let to_id: String = message.to_id.clone();
        match after_delivery(message, delivered) {
            None => None,
            Some(frame) => {
                let forwarding: Forwarding = self.forward_to_target(
                    Some(source),
                    to_id.as_str(),
                    now,
                );
                Some((frame, forwarding))
            },
        }
    }

    /// Takes in a frame that came from a peer, and hands out the message that is to be delivered,
    /// if there is one.
    pub fn handle_frame(&mut self, source: &str, frame: MeshFrame, now: u64) -> (r: Result<
        Option<MeshMessage>,
        MeshError,
    >)
        requires
            old(self).wf(),
        ensures
            final(self).wf(),
            (final(self).deep_view(), mesh_outcome(r)) == handled(
                old(self).deep_view(),
                source@,
                frame.deep_view(),
                now,
            ),
    {
        match frame {
            MeshFrame::Hello { .. } => Ok(None),
            MeshFrame::Relay { message_id, transport, from_id, to_id, payload_b64, hops_left } => {
                if !self.remember_message(message_id.as_str(), now) {
                    return Ok(None);
                }
                self.learn_route(from_id.as_str(), source, now);
                match decode_base64(payload_b64.as_str()) {
                    None => Err(MeshError::PayloadDecode),
                    Some(payload) => {
                        assert(payload.deep_view() =~= payload@);
                        Ok(
                            Some(
                                MeshMessage {
                                    message_id,
                                    transport,
                                    from_id,
                                    to_id,
                                    payload,
                                    hops_left,
                                },
                            ),
                        )
                    },
                }
            },
        }
    }
}

/// A connection to another server: which server is expected, and which it turned out to be.
pub struct MeshConn {
    id: u64,
    expected: Option<String>,
    peer_id: Option<String>,
}

/// What [`MeshConn`] holds.
#[verifier::ext_equal]
pub struct MeshConnView {
    pub id: u64,
    pub expected: Option<Seq<char>>,
    pub peer_id: Option<Seq<char>>,
}

impl DeepView for MeshConn {
    type V = MeshConnView;

    closed spec fn deep_view(&self) -> MeshConnView {
        MeshConnView {
            id: self.id,
            expected: self.expected.deep_view(),
            peer_id: self.peer_id.deep_view(),
        }
    }
}

/// What comes of a frame.
pub enum MeshEvent {
    /// The peer said who it is, and is let in.
    Connected,
    /// The frame is dealt with.
    Handled,
    /// A message is to be delivered.
    Deliver(MeshMessage),
    /// The frame is dropped.
    Dropped(MeshError),
}

/// What [`MeshEvent`] holds.
#[verifier::ext_equal]
pub enum MeshEventView {
    Connected,
    Handled,
    Deliver(MeshMessageView),
    Dropped(MeshErrorView),
}

impl DeepView for MeshEvent {
    type V = MeshEventView;

    open spec fn deep_view(&self) -> MeshEventView {
        match self {
            MeshEvent::Connected => MeshEventView::Connected,
            MeshEvent::Handled => MeshEventView::Handled,
            MeshEvent::Deliver(message) => MeshEventView::Deliver(message.deep_view()),
            MeshEvent::Dropped(error) => MeshEventView::Dropped(error.deep_view()),
        }
    }
}

/// What becomes of a connection and of the mesh when a frame comes over it, and what comes of the
/// frame: with the first frame the peer says who it is and is let in, or the connection is given
/// up; from then on it sends messages.
pub open spec fn conn_stepped(
    conn: MeshConnView,
    mesh: MeshView,
    frame: MeshFrameView,
    now: u64,
) -> (MeshConnView, MeshView, Result<MeshEventView, MeshErrorView>) {
    match conn.peer_id {
        None => match frame {
            MeshFrameView::Hello { server_id } => match mesh.peer_refusal(
                conn.expected,
                server_id,
            ) {
                Some(error) => (conn, mesh, Err(error)),
                None => (
                    MeshConnView { peer_id: Some(server_id), ..conn },
                    MeshView { peers: mesh.peers.insert(server_id, conn.id), ..mesh },
                    Ok(MeshEventView::Connected),
                ),
            },
            _ => (conn, mesh, Err(MeshErrorView::ExpectedHello)),
        },
        Some(peer_id) => {
            let (after, outcome) = handled(mesh, peer_id, frame, now);
            (
                conn,
                after,
                Ok(
                    match outcome {
                        Ok(Some(message)) => MeshEventView::Deliver(message),
                        Ok(None) => MeshEventView::Handled,
                        Err(error) => MeshEventView::Dropped(error),
                    },
                ),
            )
        },
    }
}

impl MeshConn {
    /// A connection over which nothing came yet.
    pub fn new(id: u64, expected: Option<String>) -> (r: Self)
        ensures
            r.deep_view() == (MeshConnView { id, expected: expected.deep_view(), peer_id: None }),
    {
        MeshConn { id, expected, peer_id: None }
    }

    /// Takes in a frame; an error ends the connection.
    pub fn step(&mut self, mesh: &mut Mesh, frame: MeshFrame, now: u64) -> (r: Result<
        MeshEvent,
        MeshError,
    >)
        requires
            old(mesh).wf(),
        ensures
            final(mesh).wf(),
            (final(self).deep_view(), final(mesh).deep_view(), mesh_outcome(r)) == conn_stepped(
                old(self).deep_view(),
                old(mesh).deep_view(),
                frame.deep_view(),
                now,
            ),
    {
        match &self.peer_id {
            Some(peer_id) => Ok(
                match mesh.handle_frame(peer_id.as_str(), frame, now) {
                    Ok(Some(message)) => MeshEvent::Deliver(message),
                    Ok(None) => MeshEvent::Handled,
                    Err(error) => MeshEvent::Dropped(error),
                },
            ),
            None => {
                let server_id: String = match hello_from(frame) {
                    Ok(server_id) => server_id,
                    Err(error) => {
                        return Err(error);
                    },
                };
                let expected: Option<&str> = match &self.expected {
                    Some(expected) => Some(expected.as_str()),
                    None => None,
                };
                if let Err(error) = mesh.validate_peer(expected, server_id.as_str()) {
                    return Err(error);
                }
                mesh.connect(server_id.as_str(), self.id);
                self.peer_id = Some(server_id);
                Ok(MeshEvent::Connected)
            },
        }
    }

    /// The peer at the other end, once it said who it is.
    pub fn peer(&self) -> (r: Option<String>)
        ensures
            r.deep_view() == self.deep_view().peer_id,
    {
        self.peer_id.clone()
    }

    /// Ends the connection.
    pub fn end(&self, mesh: &mut Mesh)
        requires
            old(mesh).wf(),
        ensures
            final(mesh).wf(),
            final(mesh).deep_view() == (match self.deep_view().peer_id {
                None => old(mesh).deep_view(),
                Some(peer_id) => old(mesh).deep_view().disconnected(peer_id, self.deep_view().id),
            }),
    {
        if let Some(peer_id) = &self.peer_id {
            mesh.disconnect(peer_id.as_str(), self.id);
        }
    }
}

/// Nothing that comes over a connection is dealt with before the peer said who it is, and only
/// peers that are allowed, and expected where one is expected, are let in.
pub proof fn law_only_allowed_peers_are_let_in(
    conn: MeshConnView,
    mesh: MeshView,
    frame: MeshFrameView,
    now: u64,
)
    requires
        conn.peer_id is None,
    ensures
        ({
            let next = conn_stepped(conn, mesh, frame, now);
            &&& next.1.seen == mesh.seen
            &&& next.1.routes == mesh.routes
            &&& next.2 is Ok ==> {
                &&& next.2 == Ok::<MeshEventView, MeshErrorView>(MeshEventView::Connected)
                &&& next.0.peer_id is Some
                &&& mesh.allowed.contains(next.0.peer_id->0)
                &&& next.0.peer_id->0 != mesh.server_id
                &&& conn.expected is Some ==> conn.expected == next.0.peer_id
            }
            &&& next.2 is Err ==> next.0 == conn && next.1 == mesh
        }),
{
}

/// Each step takes a hop away, and a message without hops left goes no further, so a message
/// makes no more steps than it had hops at its start.
pub proof fn law_hops_run_out(message: MeshMessageView, delivered: bool)
    ensures
        next_frame(message, delivered) matches Some(MeshFrameView::Relay { hops_left, .. })
            ==> hops_left == message.hops_left - 1,
        message.hops_left == 0 ==> next_frame(message, delivered) is None,
        delivered ==> next_frame(message, delivered) is None,
{
}

/// A message that was not seen before arrives as it was sent: the payload that its text writes,
/// from the same sender and for the same target.
pub proof fn law_message_arrives(
    mesh: MeshView,
    source: Seq<char>,
    message: MeshMessageView,
    payload_b64: Seq<char>,
    now: u64,
)
    requires
        base64_bytes(payload_b64) == Some(message.payload),
        !mesh.knows(message.message_id, now),
    ensures
        handled(
            mesh,
            source,
            MeshFrameView::Relay {
                message_id: message.message_id,
                transport: message.transport,
                from_id: message.from_id,
                to_id: message.to_id,
                payload_b64,
                hops_left: message.hops_left,
            },
            now,
        ).1 == Ok::<Option<MeshMessageView>, MeshErrorView>(Some(message)),
{
}

/// A message that was seen is not delivered a second time while it is known, which it is for two
/// minutes.
pub proof fn law_seen_once(
    mesh: MeshView,
    source: Seq<char>,
    again: Seq<char>,
    message_id: Seq<char>,
    frame: MeshFrameView,
    now: u64,
    later: u64,
)
    requires
        mesh.wf(),
        forall|k: Seq<char>| #[trigger] mesh.seen.has(k) ==> mesh.seen.at(k) <= now,
        now <= later,
        later - now < SEEN_TTL,
        frame is Relay,
        frame->message_id == message_id,
        !mesh.knows(message_id, now),
    ensures
        ({
            let after = handled(mesh, source, frame, now).0;
            &&& after.knows(message_id, later)
            &&& handled(after, again, frame, later) == (
                after,
                Ok::<Option<MeshMessageView>, MeshErrorView>(None),
            )
        }),
{
    let seen = mesh.seen.insert(message_id, now);
    if !mesh.seen.has(message_id) {
        law_newest_survives::<u64>(
            mesh.seen,
            message_id,
            now,
            now,
            SEEN_TTL,
            MAX_SEEN_IDS as nat,
        );
    } else {
        assert(seen.keys.len() <= MAX_SEEN_IDS);
    }
}

/// The connections over which a frame goes belong to peers other than the one that it came from.
pub proof fn law_never_back_to_source(
    mesh: MeshView,
    source: Seq<char>,
    target: Seq<char>,
    now: u64,
    conn: u64,
)
    requires
        mesh.wf(),
    ensures
        flood(mesh.peers, Some(source)).contains(conn) <==> exists|k: Seq<char>| #[trigger]
            mesh.peers.has(k) && k != source && mesh.peers.at(k) == conn,
        mesh.direct(Some(source), target, now) == Some(conn) ==> exists|k: Seq<char>| #[trigger]
            mesh.peers.has(k) && k != source && mesh.peers.at(k) == conn,
{
    lemma_flood(mesh.peers, source, conn);
    assert forall|k: Seq<char>| #[trigger] mesh.peers.has(k) <==> mesh.peers.keys.contains(k) by {}
    if flood(mesh.peers, Some(source)).contains(conn) {
        let i = choose|i: int|
            0 <= i < mesh.peers.keys.len() && #[trigger] mesh.peers.keys[i] != source
                && mesh.peers.map[mesh.peers.keys[i]] == conn;
        mesh.peers.lemma_index(i);
        assert(mesh.peers.has(mesh.peers.keys[i]));
    }
    if exists|k: Seq<char>| #[trigger]
        mesh.peers.has(k) && k != source && mesh.peers.at(k) == conn {
        let k = choose|k: Seq<char>| #[trigger]
            mesh.peers.has(k) && k != source && mesh.peers.at(k) == conn;
        assert(mesh.peers.keys.contains(k));
        let i = mesh.peers.keys.index_of(k);
        assert(mesh.peers.keys[i] != source);
    }
    if mesh.direct(Some(source), target, now) == Some(conn) {
        let peer_id = mesh.route_to(target, now)->0;
        assert(mesh.peers.has(peer_id));
    }
}

proof fn lemma_flood(peers: TableView<u64>, source: Seq<char>, conn: u64)
    ensures
        flood(peers, Some(source)).contains(conn) <==> exists|i: int|
            0 <= i < peers.keys.len() && #[trigger] peers.keys[i] != source
                && peers.map[peers.keys[i]] == conn,
    decreases peers.keys.len(),
{
    if peers.keys.len() > 0 {
        let rest = TableView { keys: peers.keys.drop_last(), ..peers };
        lemma_flood(rest, source, conn);
        let out = flood(peers, Some(source));
        let before = flood(rest, Some(source));
        let n = peers.keys.len() - 1;
        if out.contains(conn) {
            let j = out.index_of(conn);
            if j < before.len() {
                assert(before[j] == conn);
                assert(before.contains(conn));
                let i = choose|i: int|
                    0 <= i < rest.keys.len() && #[trigger] rest.keys[i] != source
                        && rest.map[rest.keys[i]] == conn;
                assert(peers.keys[i] == rest.keys[i]);
            } else {
                assert(peers.keys[n] != source);
            }
        }
        if exists|i: int|
            0 <= i < peers.keys.len() && #[trigger] peers.keys[i] != source
                && peers.map[peers.keys[i]] == conn {
            let i = choose|i: int|
                0 <= i < peers.keys.len() && #[trigger] peers.keys[i] != source
                    && peers.map[peers.keys[i]] == conn;
            if i < n {
                assert(rest.keys[i] == peers.keys[i]);
                assert(before.contains(conn));
                let j = before.index_of(conn);
                assert(out[j] == conn);
            } else {
                assert(out[out.len() - 1] == conn);
            }
        }
    }
}

/// A node is reached through the peer through which it was last heard of, for five minutes.
pub proof fn law_route_is_learned(
    mesh: MeshView,
    node_id: Seq<char>,
    peer_id: Seq<char>,
    now: u64,
    later: u64,
)
    requires
        mesh.wf(),
        forall|k: Seq<char>| #[trigger] mesh.routes.has(k) ==> mesh.routes.at(k).updated_at <= now,
        now <= later,
        node_id.len() > 0,
        peer_id.len() > 0,
    ensures
        mesh.learned(node_id, peer_id, now).route_to(node_id, later) == (if later - now
            <= ROUTE_TTL {
            Some(peer_id)
        } else {
            None
        }),
{
    let hint = RouteHintView { peer_id, updated_at: now };
    if !mesh.routes.has(node_id) {
        law_newest_survives::<RouteHint>(
            mesh.routes,
            node_id,
            hint,
            now,
            ROUTE_TTL,
            MAX_ROUTE_HINTS as nat,
        );
    } else {
        assert(mesh.routes.insert(node_id, hint).keys.len() <= MAX_ROUTE_HINTS);
    }
}

/// Whether a frame carries a message: the same identifier, way of transport, sender, target and
/// payload, with this many hops left.
pub open spec fn carries(frame: MeshFrameView, message: MeshMessageView, hops_left: int) -> bool {
    match frame {
        MeshFrameView::Hello { .. } => false,
        MeshFrameView::Relay {
            message_id,
            transport,
            from_id,
            to_id,
            payload_b64,
            hops_left: left,
        } => {
            &&& message_id == message.message_id
            &&& transport == message.transport
            &&& from_id == message.from_id
            &&& to_id == message.to_id
            &&& payload_b64 == base64_of(message.payload)
            &&& left == hops_left
        },
    }
}

/// A message that was not delivered and has hops left goes on, and the frame carries it unchanged
/// but for one hop fewer. Any other does not go on.
pub proof fn law_message_goes_on_unchanged(message: MeshMessageView, delivered: bool)
    ensures
        next_frame(message, delivered) is Some <==> !delivered && message.hops_left > 0,
        next_frame(message, delivered) matches Some(frame) ==> carries(
            frame,
            message,
            message.hops_left - 1,
        ),
{
}

/// The server to which a message is passed on takes out of the frame the same message with one hop
/// fewer, if it has not seen it.
pub proof fn law_next_server_gets_the_message(
    mesh: MeshView,
    source: Seq<char>,
    message: MeshMessageView,
    now: u64,
)
    requires
        message.hops_left > 0,
        base64_bytes(base64_of(message.payload)) == Some(message.payload),
        !mesh.knows(message.message_id, now),
    ensures
        ({
            let arrived = handled(mesh, source, next_frame(message, false)->0, now).1;
            &&& arrived is Ok && arrived->Ok_0 is Some
            &&& arrived->Ok_0->0 == (MeshMessageView {
                hops_left: (message.hops_left - 1) as u8,
                ..message
            })
        }),
{
}

/// The server to which a packet is sent takes out of the frame that packet, with all the hops that
/// the first server gives it.
pub proof fn law_packet_sets_out_as_given(
    mesh: MeshView,
    source: Seq<char>,
    packet: MeshOutgoingPacket,
    message_id: Seq<char>,
    max_hops: u8,
    now: u64,
)
    requires
        base64_bytes(base64_of(packet.payload@)) == Some(packet.payload@),
        !mesh.knows(message_id, now),
    ensures
        ({
            let frame = first_frame(packet, message_id, max_hops);
            let arrived = handled(mesh, source, frame, now).1;
            &&& arrived is Ok && arrived->Ok_0 is Some
            &&& arrived->Ok_0->0.message_id == message_id
            &&& arrived->Ok_0->0.transport == packet.transport
            &&& arrived->Ok_0->0.from_id == packet.from_id@
            &&& arrived->Ok_0->0.to_id == packet.to_id@
            &&& arrived->Ok_0->0.payload == packet.payload@
            &&& arrived->Ok_0->0.hops_left == max_hops
            &&& frame matches MeshFrameView::Relay { payload_b64, .. } && payload_b64 == base64_of(
                packet.payload@,
            )
        }),
{
}

/// A message is known for two minutes after it was seen, and a node for five minutes after it was
/// heard of.
pub proof fn law_how_long_it_is_known(mesh: MeshView, id: Seq<char>, now: u64)
    ensures
        mesh.seen.has(id) && mesh.seen.at(id) <= now ==> (mesh.knows(id, now) <==> now
            - mesh.seen.at(id) < 120_000_000_000),
        !mesh.seen.has(id) ==> !mesh.knows(id, now),
        mesh.routes.has(id) && mesh.routes.at(id).updated_at <= now ==> mesh.route_to(id, now) == (
        if now - mesh.routes.at(id).updated_at <= 300_000_000_000 {
            Some(mesh.routes.at(id).peer_id)
        } else {
            None
        }),
        !mesh.routes.has(id) ==> mesh.route_to(id, now) is None,
{
}

/// A frame takes the direct way exactly over the connection of the peer through which the target
/// was heard of, if it is connected and the frame did not come from it.
pub proof fn law_direct_way(
    mesh: MeshView,
    exclude: Option<Seq<char>>,
    target: Seq<char>,
    now: u64,
    conn: u64,
)
    ensures
        mesh.direct(exclude, target, now) == Some(conn) <==> {
            &&& mesh.route_to(target, now) is Some
            &&& exclude != mesh.route_to(target, now)
            &&& mesh.peers.has(mesh.route_to(target, now)->0)
            &&& mesh.peers.at(mesh.route_to(target, now)->0) == conn
        },
{
}

/// A frame that came from none of the peers floods to each of them, once, in the order in which
/// they came.
pub proof fn law_flood_reaches_every_peer(peers: TableView<u64>, exclude: Option<Seq<char>>)
    requires
        forall|i: int| 0 <= i < peers.keys.len() ==> exclude != Some(#[trigger] peers.keys[i]),
    ensures
        flood(peers, exclude) == peers.values(),
    decreases peers.keys.len(),
{
    if peers.keys.len() > 0 {
        let rest = TableView { keys: peers.keys.drop_last(), ..peers };
        assert forall|i: int| 0 <= i < rest.keys.len() implies exclude != Some(
            #[trigger] rest.keys[i],
        ) by {
            assert(rest.keys[i] == peers.keys[i]);
        }
        law_flood_reaches_every_peer(rest, exclude);
        assert(peers.keys[peers.keys.len() - 1] == peers.keys.last());
        assert(flood(peers, exclude) =~= peers.values());
    } else {
        assert(flood(peers, exclude) =~= peers.values());
    }
}

/// A frame that came from a peer floods to each of the others, once, in the order in which they
/// came.
pub proof fn law_flood_leaves_out_the_source(peers: TableView<u64>, at: int)
    requires
        peers.wf(),
        0 <= at < peers.keys.len(),
    ensures
        flood(peers, Some(peers.keys[at])) == peers.values().take(at) + peers.values().skip(at + 1),
    decreases peers.keys.len(),
{
    let source = peers.keys[at];
    let out = flood(peers, Some(source));
    lemma_flood_around(peers, at, peers.keys.len() as int);
    let whole = TableView { keys: peers.keys.take(peers.keys.len() as int), ..peers };
    assert(whole.keys =~= peers.keys);
    assert(whole == peers);
    assert(out =~= peers.values().take(at) + peers.values().skip(at + 1));
}

/// What the first peers give, one of which is left out.
proof fn lemma_flood_around(peers: TableView<u64>, at: int, n: int)
    requires
        peers.wf(),
        0 <= at < peers.keys.len(),
        0 <= n <= peers.keys.len(),
    ensures
        flood(TableView { keys: peers.keys.take(n), ..peers }, Some(peers.keys[at])) == (if n <= at {
            peers.values().take(n)
        } else {
            peers.values().take(at) + peers.values().subrange(at + 1, n)
        }),
    decreases n,
{
    let some = TableView { keys: peers.keys.take(n), ..peers };
    let expected = if n <= at {
        peers.values().take(n)
    } else {
        peers.values().take(at) + peers.values().subrange(at + 1, n)
    };
    if n > 0 {
        lemma_flood_around(peers, at, n - 1);
        assert(some.keys.drop_last() =~= peers.keys.take(n - 1));
        assert(some.keys.last() == peers.keys[n - 1]);
    }
    assert(flood(some, Some(peers.keys[at])) =~= expected);
}

/// A new peer that may be let in is let in by its greeting, under the name that it gave, and frames
/// to it go over the connection on which it came.
pub proof fn law_allowed_peer_is_let_in(conn: MeshConnView, mesh: MeshView, id: Seq<char>, now: u64)
    requires
        conn.peer_id is None,
    ensures
        ({
            let next = conn_stepped(conn, mesh, MeshFrameView::Hello { server_id: id }, now);
            &&& next.2 is Ok <==> {
                &&& id.len() > 0
                &&& id != mesh.server_id
                &&& conn.expected is None || conn.expected == Some(id)
                &&& mesh.allowed.contains(id)
            }
            &&& next.2 is Ok ==> {
                &&& next.2->Ok_0 is Connected
                &&& next.0 == (MeshConnView { peer_id: Some(id), ..conn })
                &&& next.1.peers.find(id) == Some(conn.id)
                &&& forall|k: Seq<char>| k != id ==> #[trigger]
                    next.1.peers.find(k) == mesh.peers.find(k)
                &&& next.1 == (MeshView { peers: next.1.peers, ..mesh })
            }
            &&& next.2 matches Err(error) ==> {
                &&& id.len() == 0 ==> error is PeerIdEmpty
                &&& id.len() > 0 && id == mesh.server_id ==> error is PeerIsSelf
                &&& id.len() > 0 && id != mesh.server_id && conn.expected is Some && conn.expected->0
                    != id ==> error == (MeshErrorView::PeerMismatch {
                    expected: conn.expected->0,
                    got: id,
                })
                &&& id.len() > 0 && id != mesh.server_id && (conn.expected is None
                    || conn.expected->0 == id) ==> (if mesh.allowed.len() == 0 {
                    error is NoPeersAllowed
                } else {
                    error == MeshErrorView::PeerNotAllowed(id)
                })
            }
        }),
{
}

/// A peer that was let in stays who it is. A message that it sends is handed out unless it was
/// seen, and from then on its sender is reached through this peer.
pub proof fn law_peer_brings_messages(
    conn: MeshConnView,
    mesh: MeshView,
    message: MeshMessageView,
    payload_b64: Seq<char>,
    now: u64,
    later: u64,
)
    requires
        mesh.wf(),
        conn.peer_id is Some,
        conn.peer_id->0.len() > 0,
        message.from_id.len() > 0,
        !mesh.knows(message.message_id, now),
        forall|k: Seq<char>| #[trigger] mesh.routes.has(k) ==> mesh.routes.at(k).updated_at <= now,
        now <= later,
        later - now <= 300_000_000_000,
    ensures
        ({
            let frame = MeshFrameView::Relay {
                message_id: message.message_id,
                transport: message.transport,
                from_id: message.from_id,
                to_id: message.to_id,
                payload_b64,
                hops_left: message.hops_left,
            };
            let next = conn_stepped(conn, mesh, frame, now);
            &&& next.0 == conn
            &&& next.1.peers == mesh.peers
            &&& next.1.route_to(message.from_id, later) == conn.peer_id
            &&& base64_bytes(payload_b64) == Some(message.payload) ==> next.2 == Ok::<
                MeshEventView,
                MeshErrorView,
            >(MeshEventView::Deliver(message))
            &&& base64_bytes(payload_b64) is None ==> next.2 == Ok::<MeshEventView, MeshErrorView>(
                MeshEventView::Dropped(MeshErrorView::PayloadDecode),
            )
        }),
{
    let seen = mesh.seen.insert(message.message_id, now);
    mesh.seen.lemma_insert(message.message_id, now);
    law_pruned::<u64>(seen, now, SEEN_TTL, MAX_SEEN_IDS as nat);
    let remembered = mesh.remembered(message.message_id, now);
    assert(remembered.wf());
    law_route_is_learned(remembered, message.from_id, conn.peer_id->0, now, later);
}

/// A message that is known is not handed out, and neither is a second greeting; neither changes
/// anything.
pub proof fn law_known_frames_change_nothing(
    conn: MeshConnView,
    mesh: MeshView,
    frame: MeshFrameView,
    now: u64,
)
    requires
        conn.peer_id is Some,
        frame is Relay ==> mesh.knows(frame->message_id, now),
    ensures
        conn_stepped(conn, mesh, frame, now) == (
            conn,
            mesh,
            Ok::<MeshEventView, MeshErrorView>(MeshEventView::Handled),
        ),
{
}

/// Looking a node up forgets the way to it if that is too old, and nothing else.
pub proof fn law_lookup_forgets_old_routes(mesh: MeshView, node_id: Seq<char>, now: u64)
    ensures
        ({
            let after = mesh.looked_up(node_id, now);
            &&& after.routes.has(node_id) <==> mesh.route_to(node_id, now) is Some
            &&& forall|k: Seq<char>| #[trigger]
                after.routes.has(k) ==> mesh.routes.has(k) && after.routes.at(k) == mesh.routes.at(k)
            &&& forall|k: Seq<char>| k != node_id && #[trigger] mesh.routes.has(k)
                ==> after.routes.has(k)
            &&& after == (MeshView { routes: after.routes, ..mesh })
        }),
{
}

/// While fewer than the most ways are known that may be, learning one forgets none, and learning
/// nothing of use changes nothing.
pub proof fn law_learning_keeps_routes(
    mesh: MeshView,
    node_id: Seq<char>,
    peer_id: Seq<char>,
    now: u64,
    other: Seq<char>,
)
    ensures
        node_id.len() == 0 || peer_id.len() == 0 ==> mesh.learned(node_id, peer_id, now) == mesh,
        mesh.routes.keys.len() < 16384 && other != node_id ==> mesh.learned(
            node_id,
            peer_id,
            now,
        ).routes.find(other) == mesh.routes.find(other),
        mesh.learned(node_id, peer_id, now) == (MeshView {
            routes: mesh.learned(node_id, peer_id, now).routes,
            ..mesh
        }),
        mesh.seen.keys.len() < 8192 && other != node_id ==> mesh.remembered(node_id, now).seen.find(
            other,
        ) == mesh.seen.find(other),
        mesh.remembered(node_id, now) == (MeshView {
            seen: mesh.remembered(node_id, now).seen,
            ..mesh
        }),
{
}

/// A peer is asked for its certificate under its own name, where that can be a server's name, and
/// is not connected to otherwise.
pub proof fn law_server_name(peer: MeshPeerView, valid: bool)
    ensures
        server_name_of(peer, valid) is Ok <==> valid,
        server_name_of(peer, valid) matches Ok(name) ==> name == peer.id,
        server_name_of(peer, valid) matches Err(error) ==> error
            == MeshErrorView::InvalidServerName(peer.id),
{
}

/// Frames to a peer go over its latest connection. Its end takes the peer out, and the end of an
/// earlier one does not. Other peers stay, and nothing else changes.
pub proof fn law_latest_connection_counts(
    mesh: MeshView,
    peer_id: Seq<char>,
    conn: u64,
    earlier: u64,
    other: Seq<char>,
)
    requires
        earlier != conn,
        other != peer_id,
    ensures
        ({
            let during = mesh.connected(peer_id, conn);
            let after = during.disconnected(peer_id, conn);
            &&& during.peers.find(peer_id) == Some(conn)
            &&& during.peers.find(other) == mesh.peers.find(other)
            &&& during == (MeshView { peers: during.peers, ..mesh })
            &&& during.disconnected(peer_id, earlier) == during
            &&& !after.peers.has(peer_id)
            &&& after.peers.find(other) == mesh.peers.find(other)
            &&& after == (MeshView { peers: after.peers, ..mesh })
        }),
{
}

/// The peers that may be let in are those that are configured, in order.
pub proof fn law_peer_ids(peers: Seq<MeshPeerView>, i: int)
    requires
        0 <= i < peers.len(),
    ensures
        peer_ids(peers).len() == peers.len(),
        peer_ids(peers)[i] == peers[i].id,
{
}

/// A server remembers no more than 8192 messages and the ways to 16384 nodes.
pub proof fn law_memory_is_bounded(mesh: MeshView)
    requires
        mesh.wf(),
    ensures
        mesh.seen.keys.len() <= 8192,
        mesh.routes.keys.len() <= 16384,
{
}

/// A frame that was sent the direct way goes no other way, and any other goes to all that it floods
/// to.
pub proof fn law_flood_where_the_direct_way_fails(flood: Seq<u64>)
    ensures
        targets_left(flood, true).len() == 0,
        targets_left(flood, false) == flood,
{
}

} // verus!
