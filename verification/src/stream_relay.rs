//! The relay for nodes that reach it over streams.
use vstd::prelude::*;
use vstd::utf8::encode_utf8;

use crate::packet::{
    build_packet, packet_bytes, packet_in, parse_packet, RelayError, RelayPacket, RelayPacketView,
    MAX_ID_LEN, STREAM_MAGIC, TYPE_DELIVER,
};
use crate::table::{lemma_filter_push, lemma_filter_subset, Table, TableView};
use crate::text::same_text;

verus! {

/// The connections of each node that made itself known.
pub struct StreamPeers {
    conns: Table<Vec<u64>>,
}

impl DeepView for StreamPeers {
    type V = TableView<Seq<u64>>;

    closed spec fn deep_view(&self) -> TableView<Seq<u64>> {
        self.conns.deep_view()
    }
}

/// The connections of a node, none where the node is not known.
pub open spec fn conns_of(peers: TableView<Seq<u64>>, node_id: Seq<char>) -> Seq<u64> {
    if peers.has(node_id) {
        peers.at(node_id)
    } else {
        Seq::empty()
    }
}

/// The peers after a node was known by one more connection.
pub open spec fn joined(peers: TableView<Seq<u64>>, node_id: Seq<char>, conn: u64) -> TableView<
    Seq<u64>,
> {
    peers.insert(node_id, conns_of(peers, node_id).push(conn))
}

/// The connections but one.
pub open spec fn others(conns: Seq<u64>, conn: u64) -> Seq<u64> {
    conns.filter(other_than(conn))
}

/// Whether a connection is another.
pub open spec fn other_than(conn: u64) -> spec_fn(u64) -> bool {
    |c: u64| c != conn
}

/// The peers after a connection of a node ended; a node without connections is forgotten.
pub open spec fn left(peers: TableView<Seq<u64>>, node_id: Seq<char>, conn: u64) -> TableView<
    Seq<u64>,
> {
    if peers.has(node_id) {
        let rest = others(peers.at(node_id), conn);
        if rest.len() == 0 {
            peers.remove(node_id)
        } else {
            peers.insert(node_id, rest)
        }
    } else {
        peers
    }
}

/// What is to be done with a frame that a node sent.
pub enum StreamAction {
    /// The node made itself known.
    Registered,
    /// The frame is no packet.
    Invalid,
    /// The node made itself known once more.
    Unexpected,
    /// The packet claims to come from another node.
    Spoofed { from_id: String },
    /// The packet goes to these connections.
    Deliver { conns: Vec<u64>, packet: Vec<u8> },
    /// The target has no connection here.
    Forward { from_id: String, to_id: String, payload: Vec<u8> },
}

/// What [`StreamAction`] holds.
#[verifier::ext_equal]
pub enum StreamActionView {
    Registered,
    Invalid,
    Unexpected,
    Spoofed { from_id: Seq<char> },
    Deliver { conns: Seq<u64>, packet: Seq<u8> },
    Forward { from_id: Seq<char>, to_id: Seq<char>, payload: Seq<u8> },
}

impl DeepView for StreamAction {
    type V = StreamActionView;

    open spec fn deep_view(&self) -> StreamActionView {
        match self {
            StreamAction::Registered => StreamActionView::Registered,
            StreamAction::Invalid => StreamActionView::Invalid,
            StreamAction::Unexpected => StreamActionView::Unexpected,
            StreamAction::Spoofed { from_id } => StreamActionView::Spoofed { from_id: from_id@ },
            StreamAction::Deliver { conns, packet } => StreamActionView::Deliver {
                conns: conns@,
                packet: packet@,
            },
            StreamAction::Forward { from_id, to_id, payload } => StreamActionView::Forward {
                from_id: from_id@,
                to_id: to_id@,
                payload: payload@,
            },
        }
    }
}

/// What reaches a node: the sender and the payload.
pub open spec fn delivery(from_id: Seq<char>, payload: Seq<u8>) -> Result<Seq<u8>, RelayError> {
    packet_bytes(STREAM_MAGIC@, TYPE_DELIVER, from_id, Seq::empty(), payload)
}

/// Where a packet that came over the mesh goes, and as what: to all connections of its target, and
/// nowhere where the target has none here or the sender's name does not fit into a packet.
pub open spec fn mesh_delivery(
    peers: TableView<Seq<u64>>,
    from_id: Seq<char>,
    to_id: Seq<char>,
    payload: Seq<u8>,
) -> Option<(Seq<u64>, Seq<u8>)> {
    match (peers.find(to_id), delivery(from_id, payload)) {
        (Some(conns), Ok(packet)) => Some((conns, packet)),
        _ => None,
    }
}

/// What is to be done with a frame that `node_id` sent.
pub open spec fn action_on(
    peers: TableView<Seq<u64>>,
    node_id: Seq<char>,
    frame: Seq<u8>,
) -> StreamActionView {
    match packet_in(STREAM_MAGIC@, frame) {
        None => StreamActionView::Invalid,
        Some(RelayPacketView::Register { .. }) => StreamActionView::Unexpected,
        Some(RelayPacketView::Send { from_id, to_id, payload }) => if from_id != node_id {
            StreamActionView::Spoofed { from_id }
        } else if peers.has(to_id) {
            StreamActionView::Deliver {
                conns: peers.at(to_id),
                packet: delivery(from_id, payload)->Ok_0,
            }
        } else {
            StreamActionView::Forward { from_id, to_id, payload }
        },
    }
}

/// Identifiers that were read from a packet fit into one.
proof fn lemma_ids_fit(magic: Seq<u8>, frame: Seq<u8>)
    ensures
        packet_in(magic, frame) matches Some(RelayPacketView::Send { from_id, .. })
            ==> encode_utf8(from_id).len() <= MAX_ID_LEN,
        encode_utf8(Seq::<char>::empty()).len() == 0,
{
    broadcast use vstd::utf8::decode_utf8_encode_utf8;

}

/// The name by which a node makes itself known with the first frame of a connection.
pub open spec fn known_as(frame: Seq<u8>) -> Result<Seq<char>, RelayError> {
    match packet_in(STREAM_MAGIC@, frame) {
        None => Err(RelayError::InvalidRegister),
        Some(RelayPacketView::Register { node_id }) => Ok(node_id),
        Some(_) => Err(RelayError::ExpectedRegister),
    }
}

/// The name by which a node makes itself known with the first frame of a connection.
pub fn register_frame(frame: &Vec<u8>) -> (r: Result<String, RelayError>)
    ensures
        match r {
            Ok(node_id) => known_as(frame@) == Ok::<Seq<char>, RelayError>(node_id@),
            Err(error) => known_as(frame@) == Err::<Seq<char>, RelayError>(error),
        },
{
    match parse_packet(&STREAM_MAGIC, frame) {
        None => Err(RelayError::InvalidRegister),
        Some(RelayPacket::Register { node_id }) => Ok(node_id),
        Some(_) => Err(RelayError::ExpectedRegister),
    }
}

impl StreamPeers {
    /// The table is well formed.
    pub closed spec fn wf(&self) -> bool {
        self.conns.wf()
    }

    /// No node is known yet.
    pub fn new() -> (r: Self)
        ensures
            r.wf(),
            r.deep_view() == TableView::<Seq<u64>>::empty(),
    {
        StreamPeers { conns: Table::new() }
    }

    /// Takes down one more connection of a node.
    pub fn join(&mut self, node_id: &str, conn: u64)
        requires
            old(self).wf(),
        ensures
            final(self).wf(),
            final(self).deep_view() == joined(old(self).deep_view(), node_id@, conn),
    {
        let mut list: Vec<u64> = match self.conns.get(node_id) {
            Some(list) => copy_list(list),
            None => Vec::new(),
        };
        let ghost before = list@;
        list.push(conn);
        proof {
            assert(list.deep_view() =~= before.push(conn));
            assert(before =~= conns_of(old(self).deep_view(), node_id@));
        }
        self.conns.insert(node_id.to_owned(), list);
    }

    /// Forgets a connection of a node.
    pub fn leave(&mut self, node_id: &str, conn: u64)
        requires
            old(self).wf(),
        ensures
            final(self).wf(),
            final(self).deep_view() == left(old(self).deep_view(), node_id@, conn),
    {
        let list: Vec<u64> = match self.conns.get(node_id) {
            Some(list) => without(list, conn),
            None => {
                return ;
            },
        };
        assert(list.deep_view() =~= list@);
        if list.len() == 0 {
            self.conns.remove(node_id);
        } else {
            self.conns.insert(node_id.to_owned(), list);
        }
    }

    /// The connections of a node.
    pub fn targets(&self, node_id: &str) -> (r: Option<Vec<u64>>)
        requires
            self.wf(),
        ensures
            r.deep_view() == self.deep_view().find(node_id@),
    {
        match self.conns.get(node_id) {
            Some(list) => {
                let list: Vec<u64> = copy_list(list);
                assert(list.deep_view() =~= list@);
                Some(list)
            },
            None => None,
        }
    }

    /// Decides what is to be done with a frame that a node sent.
    pub fn on_frame(&self, node_id: &str, frame: &Vec<u8>) -> (r: StreamAction)
        requires
            self.wf(),
        ensures
            r.deep_view() == action_on(self.deep_view(), node_id@, frame@),
    {
        proof {
            lemma_ids_fit(STREAM_MAGIC@, frame@);
            reveal_strlit("");
        }
        match parse_packet(&STREAM_MAGIC, frame) {
            None => StreamAction::Invalid,
            Some(RelayPacket::Register { .. }) => StreamAction::Unexpected,
            Some(RelayPacket::Send { from_id, to_id, payload }) => {
                if !same_text(from_id.as_str(), node_id) {
                    return StreamAction::Spoofed { from_id };
                }
                match self.targets(to_id.as_str()) {
                    None => StreamAction::Forward { from_id, to_id, payload },
                    Some(conns) => {
                        assert(conns.deep_view() =~= conns@);
                        assert(""@ =~= Seq::<char>::empty());
                        match build_packet(
                            &STREAM_MAGIC,
                            TYPE_DELIVER,
                            from_id.as_str(),
                            "",
                            &payload,
                        ) {
                            Ok(packet) => StreamAction::Deliver { conns, packet },
                            Err(_) => StreamAction::Invalid,
                        }
                    },
                }
            },
        }
    }

    /// Where a packet that came over the mesh goes, and as what.
    pub fn on_mesh(&self, from_id: &str, to_id: &str, payload: &Vec<u8>) -> (r: Option<
        (Vec<u64>, Vec<u8>),
    >)
        requires
            self.wf(),
        ensures
            r.deep_view() == mesh_delivery(self.deep_view(), from_id@, to_id@, payload@),
    {
        match self.targets(to_id) {
            None => None,
            Some(conns) => {
                proof {
                    reveal_strlit("");
                    assert(""@ =~= Seq::<char>::empty());
                }
                match build_packet(&STREAM_MAGIC, TYPE_DELIVER, from_id, "", payload) {
                    Ok(packet) => {
                        assert(packet.deep_view() =~= packet@);
                        Some((conns, packet))
                    },
                    Err(_) => None,
                }
            },
        }
    }
}

/// A connection, and the node that made itself known over it.
pub struct StreamConn {
    id: u64,
    node_id: Option<String>,
}

/// What [`StreamConn`] holds.
#[verifier::ext_equal]
pub struct StreamConnView {
    pub id: u64,
    pub node_id: Option<Seq<char>>,
}

impl DeepView for StreamConn {
    type V = StreamConnView;

    closed spec fn deep_view(&self) -> StreamConnView {
        StreamConnView { id: self.id, node_id: self.node_id.deep_view() }
    }
}

/// What becomes of a connection and of the peers when a frame comes over it, and what is to be
/// done: with the first frame a node makes itself known, or the connection is given up; from then
/// on it sends.
pub open spec fn stepped(
    conn: StreamConnView,
    peers: TableView<Seq<u64>>,
    frame: Seq<u8>,
) -> (StreamConnView, TableView<Seq<u64>>, Result<StreamActionView, RelayError>) {
    match conn.node_id {
        None => match known_as(frame) {
            Ok(node_id) => (
                StreamConnView { node_id: Some(node_id), ..conn },
                joined(peers, node_id, conn.id),
                Ok(StreamActionView::Registered),
            ),
            Err(error) => (conn, peers, Err(error)),
        },
        Some(node_id) => (conn, peers, Ok(action_on(peers, node_id, frame))),
    }
}

/// What becomes of the peers when a connection ends.
pub open spec fn ended(conn: StreamConnView, peers: TableView<Seq<u64>>) -> TableView<Seq<u64>> {
    match conn.node_id {
        None => peers,
        Some(node_id) => left(peers, node_id, conn.id),
    }
}

impl StreamConn {
    /// A connection over which nothing came yet.
    pub fn new(id: u64) -> (r: Self)
        ensures
            r.deep_view() == (StreamConnView { id, node_id: None }),
    {
        StreamConn { id, node_id: None }
    }

    /// Takes in a frame and decides what is to be done; an error ends the connection.
    pub fn step(&mut self, peers: &mut StreamPeers, frame: &Vec<u8>) -> (r: Result<
        StreamAction,
        RelayError,
    >)
        requires
            old(peers).wf(),
        ensures
            final(peers).wf(),
            ({
                let next = stepped(old(self).deep_view(), old(peers).deep_view(), frame@);
                &&& final(self).deep_view() == next.0
                &&& final(peers).deep_view() == next.1
                &&& match r {
                    Ok(action) => next.2 == Ok::<StreamActionView, RelayError>(action.deep_view()),
                    Err(error) => next.2 == Err::<StreamActionView, RelayError>(error),
                }
            }),
    {
        match &self.node_id {
            Some(node_id) => Ok(peers.on_frame(node_id.as_str(), frame)),
            None => match register_frame(frame) {
                Ok(node_id) => {
                    peers.join(node_id.as_str(), self.id);
                    self.node_id = Some(node_id);
                    Ok(StreamAction::Registered)
                },
                Err(error) => Err(error),
            },
        }
    }

    /// Ends the connection.
    pub fn end(&self, peers: &mut StreamPeers)
        requires
            old(peers).wf(),
        ensures
            final(peers).wf(),
            final(peers).deep_view() == ended(self.deep_view(), old(peers).deep_view()),
    {
        if let Some(node_id) = &self.node_id {
            peers.leave(node_id.as_str(), self.id);
        }
    }
}

/// Copies a list of connections.
fn copy_list(list: &Vec<u64>) -> (r: Vec<u64>)
    ensures
        r@ == list@,
        r@ == list.deep_view(),
{
    let r: Vec<u64> = list.clone();
    assert(r@ =~= list@);
    assert(list@ =~= list.deep_view());
    r
}

/// The connections but one.
fn without(list: &Vec<u64>, conn: u64) -> (r: Vec<u64>)
    ensures
        r@ == others(list.deep_view(), conn),
{
    let ghost all = list.deep_view();
    let ghost test = other_than(conn);
    let mut out: Vec<u64> = Vec::new();
    let mut i: usize = 0;
    proof {
        assert(all.take(0).filter(test) =~= Seq::<u64>::empty()) by {
            reveal(Seq::filter);
        }
    }
    while i < list.len()
        invariant
            i <= list@.len(),
            all == list.deep_view(),
            test == other_than(conn),
            out@ == all.take(i as int).filter(test),
        decreases list.len() - i,
    {
        proof {
            assert(all.take(i + 1) =~= all.take(i as int).push(all[i as int]));
            lemma_filter_push(all.take(i as int), test, all[i as int]);
        }
        if list[i] != conn {
            out.push(list[i]);
        }
        i = i + 1;
    }
    assert(all.take(i as int) =~= all);
    out
}

/// A packet is delivered only where the sender is the node that the connection belongs to, only
/// to connections of its target, and says who sent it and what.
pub proof fn law_only_own_packets_are_relayed(
    peers: TableView<Seq<u64>>,
    node_id: Seq<char>,
    frame: Seq<u8>,
)
    ensures
        action_on(peers, node_id, frame) matches StreamActionView::Deliver { conns, packet } ==> {
            &&& packet_in(STREAM_MAGIC@, frame) matches Some(
                RelayPacketView::Send { from_id, to_id, payload },
            )
            &&& from_id == node_id
            &&& peers.has(to_id)
            &&& conns == peers.at(to_id)
            &&& delivery(node_id, payload) == Ok::<Seq<u8>, RelayError>(packet)
        },
        action_on(peers, node_id, frame) matches StreamActionView::Forward { from_id, to_id, .. }
            ==> from_id == node_id && !peers.has(to_id),
{
    lemma_ids_fit(STREAM_MAGIC@, frame);
}

/// A connection that ends leaves the peers as they were before it was taken down, where it was
/// not known by that number yet.
pub proof fn law_leave_undoes_join(peers: TableView<Seq<u64>>, node_id: Seq<char>, conn: u64)
    requires
        peers.wf(),
        peers.has(node_id) ==> peers.at(node_id).len() > 0,
        !conns_of(peers, node_id).contains(conn),
    ensures
        left(joined(peers, node_id, conn), node_id, conn) == peers,
{
    let before = conns_of(peers, node_id);
    let test = other_than(conn);
    let during = joined(peers, node_id, conn);
    lemma_filter_push(before, test, conn);
    lemma_filter_all(before, test);
    assert(others(before.push(conn), conn) == before);
    assert(during.at(node_id) == before.push(conn));
    let after = left(during, node_id, conn);
    if peers.has(node_id) {
        assert(after.map =~= peers.map);
        assert(after.keys =~= peers.keys);
    } else {
        peers.lemma_insert(node_id, before.push(conn));
        assert(!peers.keys.contains(node_id));
        let n = peers.keys.len() as int;
        assert(during.keys[n] == node_id);
        during.lemma_index(n);
        assert(after.keys =~= peers.keys);
        assert(after.map =~= peers.map);
    }
}

/// A connection, whatever comes over it, leaves the peers as it found them when it ends, where
/// nobody else changed them and its number was not in use.
pub proof fn law_connection_leaves_no_trace(
    id: u64,
    peers: TableView<Seq<u64>>,
    frames: Seq<Seq<u8>>,
)
    requires
        peers.wf(),
        forall|node_id: Seq<char>| #[trigger]
            peers.has(node_id) ==> peers.at(node_id).len() > 0 && !peers.at(node_id).contains(id),
    ensures
        ({
            let (conn, during) = all_stepped(StreamConnView { id, node_id: None }, peers, frames);
            ended(conn, during) == peers
        }),
{
    lemma_steps(id, peers, frames);
    let (conn, during) = all_stepped(StreamConnView { id, node_id: None }, peers, frames);
    if let Some(node_id) = conn.node_id {
        law_leave_undoes_join(peers, node_id, id);
    }
}

/// A connection and the peers after a number of frames.
pub open spec fn all_stepped(
    conn: StreamConnView,
    peers: TableView<Seq<u64>>,
    frames: Seq<Seq<u8>>,
) -> (StreamConnView, TableView<Seq<u64>>)
    decreases frames.len(),
{
    if frames.len() == 0 {
        (conn, peers)
    } else {
        let (before, during) = all_stepped(conn, peers, frames.drop_last());
        let next = stepped(before, during, frames.last());
        (next.0, next.1)
    }
}

proof fn lemma_steps(id: u64, peers: TableView<Seq<u64>>, frames: Seq<Seq<u8>>)
    ensures
        ({
            let (conn, during) = all_stepped(StreamConnView { id, node_id: None }, peers, frames);
            &&& conn.id == id
            &&& during == (match conn.node_id {
                None => peers,
                Some(node_id) => joined(peers, node_id, id),
            })
        }),
    decreases frames.len(),
{
    if frames.len() > 0 {
        lemma_steps(id, peers, frames.drop_last());
    }
}

/// A filter that everything passes changes nothing.
proof fn lemma_filter_all(s: Seq<u64>, p: spec_fn(u64) -> bool)
    requires
        forall|i: int| 0 <= i < s.len() ==> p(#[trigger] s[i]),
    ensures
        s.filter(p) == s,
    decreases s.len(),
{
    reveal(Seq::filter);
    if s.len() > 0 {
        lemma_filter_all(s.drop_last(), p);
        assert(s =~= s.drop_last().push(s.last()));
    }
}

/// A connection that registers is added behind those that the node has. Those of other nodes stay.
pub proof fn law_join(peers: TableView<Seq<u64>>, node_id: Seq<char>, conn: u64, other: Seq<char>)
    ensures
        ({
            let after = joined(peers, node_id, conn);
            &&& after.has(node_id)
            &&& after.at(node_id).last() == conn
            &&& peers.has(node_id) ==> after.at(node_id).drop_last() == peers.at(node_id)
            &&& !peers.has(node_id) ==> after.at(node_id).len() == 1
            &&& other != node_id ==> after.find(other) == peers.find(other)
        }),
{
    let after = joined(peers, node_id, conn);
    assert(after.at(node_id).drop_last() =~= conns_of(peers, node_id));
}

/// A connection that ends is taken from those of its node, which is not known any more without any.
/// Those of other nodes stay.
pub proof fn law_leave(
    peers: TableView<Seq<u64>>,
    node_id: Seq<char>,
    conn: u64,
    other: Seq<char>,
    c: u64,
)
    ensures
        ({
            let after = left(peers, node_id, conn);
            &&& after.has(node_id) ==> peers.has(node_id)
            &&& peers.has(node_id) && peers.at(node_id).contains(c) && c != conn ==> after.has(
                node_id,
            ) && after.at(node_id).contains(c)
            &&& after.has(node_id) ==> after.at(node_id).len() > 0 && !after.at(node_id).contains(
                conn,
            )
            &&& after.has(node_id) && after.at(node_id).contains(c) ==> peers.at(node_id).contains(c)
            &&& other != node_id ==> after.find(other) == peers.find(other)
        }),
{
    broadcast use vstd::seq_lib::group_filter_ensures;

    if peers.has(node_id) {
        let conns = peers.at(node_id);
        let p = other_than(conn);
        if conns.contains(c) && c != conn {
            let i = conns.index_of(c);
            assert(p(conns[i]));
            assert(conns.filter(p).contains(conns[i]));
        }
        if conns.filter(p).contains(conn) {
            lemma_filter_subset(conns, p, conn);
        }
        if conns.filter(p).contains(c) {
            lemma_filter_subset(conns, p, c);
        }
    }
}

/// What the relay makes of a frame of a registered node: a packet from the node goes to all
/// connections of its target, as a delivery from its sender with its payload, and is to be
/// forwarded as it is where the target has none. A packet in the name of another node is refused,
/// and so are a second registration and what is not understood.
pub proof fn law_frame(peers: TableView<Seq<u64>>, node_id: Seq<char>, frame: Seq<u8>)
    ensures
        ({
            let action = action_on(peers, node_id, frame);
            match packet_in(STREAM_MAGIC@, frame) {
                None => action is Invalid,
                Some(RelayPacketView::Register { .. }) => action is Unexpected,
                Some(RelayPacketView::Send { from_id, to_id, payload }) => {
                    &&& from_id != node_id ==> action == (StreamActionView::Spoofed { from_id })
                    &&& from_id == node_id && peers.has(to_id) ==> {
                        &&& action is Deliver
                        &&& action->conns == peers.at(to_id)
                        &&& action->packet == STREAM_MAGIC@ + seq![
                            3u8,
                            encode_utf8(from_id).len() as u8,
                            0u8,
                            0u8,
                        ] + encode_utf8(from_id) + payload
                    }
                    &&& from_id == node_id && !peers.has(to_id) ==> action == (
                    StreamActionView::Forward { from_id, to_id, payload })
                },
            }
        }),
{
    lemma_ids_fit(STREAM_MAGIC@, frame);
    assert(encode_utf8(Seq::<char>::empty()) =~= Seq::<u8>::empty());
    if let Some(RelayPacketView::Send { from_id, to_id, payload }) = packet_in(
        STREAM_MAGIC@,
        frame,
    ) {
        let packet = delivery(from_id, payload)->Ok_0;
        assert(packet =~= STREAM_MAGIC@ + seq![3u8, encode_utf8(from_id).len() as u8, 0u8, 0u8]
            + encode_utf8(from_id) + payload);
    }
}

/// The first frame of a connection has to register a node, which the connection then belongs to.
/// From then on it stays with that node, and its frames change nothing of who is connected.
pub proof fn law_first_frame_registers(
    conn: StreamConnView,
    peers: TableView<Seq<u64>>,
    frame: Seq<u8>,
)
    ensures
        ({
            let next = stepped(conn, peers, frame);
            &&& next.0.id == conn.id
            &&& conn.node_id is Some ==> next.0 == conn && next.1 == peers && next.2 is Ok
            &&& conn.node_id is None ==> match packet_in(STREAM_MAGIC@, frame) {
                Some(RelayPacketView::Register { node_id }) => {
                    &&& next.0.node_id == Some(node_id)
                    &&& next.1.has(node_id)
                    &&& next.1.at(node_id).contains(conn.id)
                    &&& next.2 is Ok && next.2->Ok_0 is Registered
                },
                Some(_) => next.0 == conn && next.1 == peers && next.2 == Err::<
                    StreamActionView,
                    RelayError,
                >(RelayError::ExpectedRegister),
                None => next.0 == conn && next.1 == peers && next.2 == Err::<
                    StreamActionView,
                    RelayError,
                >(RelayError::InvalidRegister),
            }
        }),
{
    if let Some(RelayPacketView::Register { node_id }) = packet_in(STREAM_MAGIC@, frame) {
        let all = joined(peers, node_id, conn.id).at(node_id);
        assert(all[all.len() - 1] == conn.id);
    }
}

/// A packet that came over the mesh goes to all connections that its target has here, as a delivery
/// from its sender with its payload, and nowhere where the target has none.
pub proof fn law_mesh_delivery(
    peers: TableView<Seq<u64>>,
    from_id: Seq<char>,
    to_id: Seq<char>,
    payload: Seq<u8>,
)
    ensures
        ({
            let made = mesh_delivery(peers, from_id, to_id, payload);
            &&& made is Some <==> peers.has(to_id) && encode_utf8(from_id).len() <= 64
            &&& made matches Some((conns, packet)) ==> {
                &&& conns == peers.at(to_id)
                &&& packet == STREAM_MAGIC@ + seq![3u8, encode_utf8(from_id).len() as u8, 0u8, 0u8]
                    + encode_utf8(from_id) + payload
            }
        }),
{
    lemma_ids_fit(STREAM_MAGIC@, Seq::empty());
    assert(encode_utf8(Seq::<char>::empty()) =~= Seq::<u8>::empty());
    if let Ok(packet) = delivery(from_id, payload) {
        assert(packet =~= STREAM_MAGIC@ + seq![3u8, encode_utf8(from_id).len() as u8, 0u8, 0u8]
            + encode_utf8(from_id) + payload);
    }
}

} // verus!
