//! The packets that relays and nodes exchange.
use vstd::prelude::*;
use vstd::utf8::{decode_utf8, encode_utf8, valid_utf8};

verus! {

/// How the packets of the stream relay begin.
pub const STREAM_MAGIC: [u8; 4] = [76, 83, 82, 50];

/// How the packets of the UDP relay begin.
pub const UDP_MAGIC: [u8; 4] = [76, 83, 82, 49];

/// The type of a packet with which a node makes itself known.
pub const TYPE_REGISTER: u8 = 1;

/// The type of a packet that a node sends to another.
pub const TYPE_SEND: u8 = 2;

/// The type of a packet that reaches a node.
pub const TYPE_DELIVER: u8 = 3;

/// The length of what stands before the identifiers of a packet.
pub const HEADER_LEN: usize = 8;

/// The greatest length of an identifier, in bytes.
pub const MAX_ID_LEN: usize = 64;

/// The greatest length of a frame of the stream relay.
pub const MAX_FRAME_LEN: usize = 65536;

/// What a node tells a relay.
pub enum RelayPacket {
    Register { node_id: String },
    Send { from_id: String, to_id: String, payload: Vec<u8> },
}

/// What [`RelayPacket`] holds.
#[verifier::ext_equal]
pub enum RelayPacketView {
    Register { node_id: Seq<char> },
    Send { from_id: Seq<char>, to_id: Seq<char>, payload: Seq<u8> },
}

impl DeepView for RelayPacket {
    type V = RelayPacketView;

    open spec fn deep_view(&self) -> RelayPacketView {
        match self {
            RelayPacket::Register { node_id } => RelayPacketView::Register { node_id: node_id@ },
            RelayPacket::Send { from_id, to_id, payload } => RelayPacketView::Send {
                from_id: from_id@,
                to_id: to_id@,
                payload: payload@,
            },
        }
    }
}

/// Why a packet or a frame cannot be made or read.
#[derive(Clone, Copy, Debug, PartialEq, Eq, Structural)]
pub enum RelayError {
    /// An identifier is longer than a packet can hold.
    IdTooLong,
    /// A frame is empty or too long.
    FrameLength(usize),
    /// The first frame of a connection is no packet.
    InvalidRegister,
    /// The first frame of a connection is not the one with which a node makes itself known.
    ExpectedRegister,
}

/// The text that some bytes write in UTF-8, if they write one.
pub open spec fn utf8_text(bytes: Seq<u8>) -> Option<Seq<char>> {
    if valid_utf8(bytes) {
        Some(decode_utf8(bytes))
    } else {
        None
    }
}

/// `std::str::from_utf8` reads the text that some bytes write in UTF-8, if they write one.
#[verifier::external_body]
pub(crate) fn read_utf8(bytes: &[u8]) -> (r: Option<String>)
    ensures
        r.deep_view() == utf8_text(bytes@),
{
    std::str::from_utf8(bytes).ok().map(|text| text.to_string())
}

/// The packet that some bytes write, if they write one that a node may send: the magic, the type,
/// the lengths of the two identifiers, a byte without meaning, the identifiers, and the payload.
pub open spec fn packet_in(magic: Seq<u8>, buf: Seq<u8>) -> Option<RelayPacketView> {
    if buf.len() < HEADER_LEN || buf.take(4) != magic {
        None
    } else if buf[5] > MAX_ID_LEN || buf[6] > MAX_ID_LEN || buf.len() < HEADER_LEN + buf[5] + buf[6] {
        None
    } else {
        let from_end = HEADER_LEN + buf[5];
        let to_end = from_end + buf[6];
        let payload = buf.skip(to_end);
        match (
            utf8_text(buf.subrange(HEADER_LEN as int, from_end)),
            utf8_text(buf.subrange(from_end, to_end)),
        ) {
            (Some(from_id), Some(to_id)) => if buf[4] == TYPE_REGISTER && from_id.len() > 0
                && to_id.len() == 0 {
                Some(RelayPacketView::Register { node_id: from_id })
            } else if buf[4] == TYPE_SEND && from_id.len() > 0 && to_id.len() > 0 {
                Some(RelayPacketView::Send { from_id, to_id, payload })
            } else {
                None
            },
            _ => None,
        }
    }
}

/// A part of some bytes.
fn part(buf: &Vec<u8>, from: usize, to: usize) -> (r: Vec<u8>)
    requires
        from <= to <= buf@.len(),
    ensures
        r@ == buf@.subrange(from as int, to as int),
{
    let mut out: Vec<u8> = Vec::new();
    let mut i: usize = from;
    while i < to
        invariant
            from <= i <= to <= buf@.len(),
            out@ == buf@.subrange(from as int, i as int),
        decreases to - i,
    {
        out.push(buf[i]);
        assert(buf@.subrange(from as int, i + 1) =~= buf@.subrange(from as int, i as int).push(
            buf@[i as int],
        ));
        i = i + 1;
    }
    out
}

/// Reads a packet.
pub fn parse_packet(magic: &[u8; 4], buf: &Vec<u8>) -> (r: Option<RelayPacket>)
    ensures
        r.deep_view() == packet_in(magic@, buf@),
{
    if buf.len() < HEADER_LEN {
        return None;
    }
    if buf[0] != magic[0] || buf[1] != magic[1] || buf[2] != magic[2] || buf[3] != magic[3] {
        proof {
            let head = buf@.take(4);
            assert(head[0] == buf@[0] && head[1] == buf@[1] && head[2] == buf@[2] && head[3]
                == buf@[3]);
        }
        return None;
    }
    assert(buf@.take(4) =~= magic@);
    let msg_type: u8 = buf[4];
    let from_len: usize = buf[5] as usize;
    let to_len: usize = buf[6] as usize;
    if from_len > MAX_ID_LEN || to_len > MAX_ID_LEN {
        return None;
    }
    if buf.len() < HEADER_LEN + from_len + to_len {
        return None;
    }
    let from_end: usize = HEADER_LEN + from_len;
    let to_end: usize = from_end + to_len;
    let from_bytes: Vec<u8> = part(buf, HEADER_LEN, from_end);
    let to_bytes: Vec<u8> = part(buf, from_end, to_end);
    let from_id: String = match read_utf8(from_bytes.as_slice()) {
        Some(id) => id,
        None => {
            return None;
        },
    };
    let to_id: String = match read_utf8(to_bytes.as_slice()) {
        Some(id) => id,
        None => {
            return None;
        },
    };
    let payload: Vec<u8> = part(buf, to_end, buf.len());
    assert(payload@ =~= buf@.skip(to_end as int));
    if msg_type == TYPE_REGISTER {
        if from_id.as_str().is_empty() || !to_id.as_str().is_empty() {
            None
        } else {
            Some(RelayPacket::Register { node_id: from_id })
        }
    } else if msg_type == TYPE_SEND {
        if from_id.as_str().is_empty() || to_id.as_str().is_empty() {
            None
        } else {
            Some(RelayPacket::Send { from_id, to_id, payload })
        }
    } else {
        None
    }
}

/// The bytes of a packet.
pub open spec fn packet_bytes(
    magic: Seq<u8>,
    msg_type: u8,
    from_id: Seq<char>,
    to_id: Seq<char>,
    payload: Seq<u8>,
) -> Result<Seq<u8>, RelayError> {
    let from = encode_utf8(from_id);
    let to = encode_utf8(to_id);
    if from.len() > MAX_ID_LEN || to.len() > MAX_ID_LEN {
        Err(RelayError::IdTooLong)
    } else {
        Ok(magic + seq![msg_type, from.len() as u8, to.len() as u8, 0u8] + from + to + payload)
    }
}

/// Appends bytes.
fn append_bytes(out: &mut Vec<u8>, bytes: &[u8])
    ensures
        final(out)@ == old(out)@ + bytes@,
{
    let ghost before = out@;
    let mut i: usize = 0;
    assert(before + bytes@.take(0) =~= before);
    while i < bytes.len()
        invariant
            i <= bytes@.len(),
            out@ == before + bytes@.take(i as int),
        decreases bytes.len() - i,
    {
        out.push(bytes[i]);
        assert(before + bytes@.take(i + 1) =~= (before + bytes@.take(i as int)).push(
            bytes@[i as int],
        ));
        i = i + 1;
    }
    assert(bytes@.take(i as int) =~= bytes@);
}

/// Writes a packet.
pub fn build_packet(
    magic: &[u8; 4],
    msg_type: u8,
    from_id: &str,
    to_id: &str,
    payload: &Vec<u8>,
) -> (r: Result<Vec<u8>, RelayError>)
    ensures
        match packet_bytes(magic@, msg_type, from_id@, to_id@, payload@) {
            Ok(bytes) => r is Ok && r->Ok_0@ == bytes,
            Err(error) => r == Err::<Vec<u8>, RelayError>(error),
        },
{
    let from: &[u8] = from_id.as_bytes();
    let to: &[u8] = to_id.as_bytes();
    if from.len() > MAX_ID_LEN || to.len() > MAX_ID_LEN {
        return Err(RelayError::IdTooLong);
    }
    let mut out: Vec<u8> = Vec::new();
    out.push(magic[0]);
    out.push(magic[1]);
    out.push(magic[2]);
    out.push(magic[3]);
    assert(out@ =~= magic@);
    out.push(msg_type);
    out.push(from.len() as u8);
    out.push(to.len() as u8);
    out.push(0);
    assert(out@ =~= magic@ + seq![msg_type, from@.len() as u8, to@.len() as u8, 0u8]);
    append_bytes(&mut out, from);
    append_bytes(&mut out, to);
    append_bytes(&mut out, payload.as_slice());
    Ok(out)
}

/// Empty text is written with no bytes, and other text is not.
proof fn lemma_encode_empty(text: Seq<char>)
    ensures
        encode_utf8(text).len() == 0 <==> text.len() == 0,
{
    broadcast use {vstd::utf8::encode_utf8_decode_utf8, vstd::utf8::encode_utf8_valid_utf8};

    if encode_utf8(text).len() == 0 {
        assert(decode_utf8(encode_utf8(text)) == text);
        assert(encode_utf8(text) =~= Seq::<u8>::empty());
        assert(decode_utf8(Seq::<u8>::empty()) =~= Seq::<char>::empty());
    }
}

/// What a node sends is what the relay reads: sender, target and payload.
pub proof fn law_send_round_trip(
    magic: Seq<u8>,
    from_id: Seq<char>,
    to_id: Seq<char>,
    payload: Seq<u8>,
)
    requires
        magic.len() == 4,
        from_id.len() > 0,
        to_id.len() > 0,
        encode_utf8(from_id).len() <= MAX_ID_LEN,
        encode_utf8(to_id).len() <= MAX_ID_LEN,
    ensures
        ({
            let bytes = packet_bytes(magic, TYPE_SEND, from_id, to_id, payload);
            bytes is Ok && packet_in(magic, bytes->Ok_0) == Some(
                RelayPacketView::Send { from_id, to_id, payload },
            )
        }),
{
    broadcast use {vstd::utf8::encode_utf8_decode_utf8, vstd::utf8::encode_utf8_valid_utf8};

    let from = encode_utf8(from_id);
    let to = encode_utf8(to_id);
    let bytes = packet_bytes(magic, TYPE_SEND, from_id, to_id, payload)->Ok_0;
    assert(bytes.take(4) =~= magic);
    assert(bytes.subrange(8, 8 + from.len() as int) =~= from);
    assert(bytes.subrange(8 + from.len() as int, 8 + from.len() as int + to.len()) =~= to);
    assert(bytes.skip(8 + from.len() as int + to.len()) =~= payload);
}

/// A node that makes itself known is known to the relay by the name that it gave, whatever payload
/// comes with it.
pub proof fn law_register_round_trip(magic: Seq<u8>, node_id: Seq<char>, payload: Seq<u8>)
    requires
        magic.len() == 4,
        node_id.len() > 0,
        encode_utf8(node_id).len() <= MAX_ID_LEN,
    ensures
        ({
            let bytes = packet_bytes(magic, TYPE_REGISTER, node_id, Seq::empty(), payload);
            bytes is Ok && packet_in(magic, bytes->Ok_0) == Some(
                RelayPacketView::Register { node_id },
            )
        }),
{
    broadcast use {vstd::utf8::encode_utf8_decode_utf8, vstd::utf8::encode_utf8_valid_utf8};

    let from = encode_utf8(node_id);
    lemma_encode_empty(Seq::<char>::empty());
    let to = encode_utf8(Seq::<char>::empty());
    let bytes = packet_bytes(magic, TYPE_REGISTER, node_id, Seq::empty(), payload)->Ok_0;
    assert(bytes.take(4) =~= magic);
    assert(bytes.subrange(8, 8 + from.len() as int) =~= from);
    assert(bytes.subrange(8 + from.len() as int, 8 + from.len() as int + to.len()) =~= to);
    assert(to =~= Seq::<u8>::empty());
}

/// What reaches a node is nothing that a relay takes from one, and the packets of one relay are
/// none of the other.
pub proof fn law_packets_are_told_apart(
    from_id: Seq<char>,
    to_id: Seq<char>,
    payload: Seq<u8>,
    msg_type: u8,
)
    ensures
        packet_bytes(STREAM_MAGIC@, TYPE_DELIVER, from_id, to_id, payload) is Ok ==> packet_in(
            STREAM_MAGIC@,
            packet_bytes(STREAM_MAGIC@, TYPE_DELIVER, from_id, to_id, payload)->Ok_0,
        ) is None,
        packet_bytes(UDP_MAGIC@, TYPE_DELIVER, from_id, to_id, payload) is Ok ==> packet_in(
            UDP_MAGIC@,
            packet_bytes(UDP_MAGIC@, TYPE_DELIVER, from_id, to_id, payload)->Ok_0,
        ) is None,
        packet_bytes(UDP_MAGIC@, msg_type, from_id, to_id, payload) is Ok ==> packet_in(
            STREAM_MAGIC@,
            packet_bytes(UDP_MAGIC@, msg_type, from_id, to_id, payload)->Ok_0,
        ) is None,
        packet_bytes(STREAM_MAGIC@, msg_type, from_id, to_id, payload) is Ok ==> packet_in(
            UDP_MAGIC@,
            packet_bytes(STREAM_MAGIC@, msg_type, from_id, to_id, payload)->Ok_0,
        ) is None,
{
    assert(STREAM_MAGIC@[3] == 50);
    assert(UDP_MAGIC@[3] == 49);
    if packet_bytes(UDP_MAGIC@, msg_type, from_id, to_id, payload) is Ok {
        let bytes = packet_bytes(UDP_MAGIC@, msg_type, from_id, to_id, payload)->Ok_0;
        assert(bytes.take(4)[3] == 49);
    }
    if packet_bytes(STREAM_MAGIC@, msg_type, from_id, to_id, payload) is Ok {
        let bytes = packet_bytes(STREAM_MAGIC@, msg_type, from_id, to_id, payload)->Ok_0;
        assert(bytes.take(4)[3] == 50);
    }
}

/// The number that four bytes write, the most significant first.
pub open spec fn big_endian(b: Seq<u8>) -> int {
    b[0] * 0x100_0000 + b[1] * 0x1_0000 + b[2] * 0x100 + b[3]
}

/// The length of the frame that four bytes announce.
pub fn frame_len(header: &[u8; 4]) -> (r: Result<usize, RelayError>)
    ensures
        r == (if 0 < big_endian(header@) <= MAX_FRAME_LEN {
            Ok::<usize, RelayError>(big_endian(header@) as usize)
        } else {
            Err(RelayError::FrameLength(big_endian(header@) as usize))
        }),
{
    let len: u32 = header[0] as u32 * 0x100_0000 + header[1] as u32 * 0x1_0000 + header[2] as u32
        * 0x100 + header[3] as u32;
    if len == 0 || len as usize > MAX_FRAME_LEN {
        Err(RelayError::FrameLength(len as usize))
    } else {
        Ok(len as usize)
    }
}

/// The four bytes that announce the length of a frame.
pub fn frame_header(len: usize) -> (r: Result<[u8; 4], RelayError>)
    ensures
        match r {
            Ok(header) => 0 < len <= MAX_FRAME_LEN && big_endian(header@) == len,
            Err(error) => !(0 < len <= MAX_FRAME_LEN) && error == RelayError::FrameLength(len),
        },
{
    if len == 0 || len > MAX_FRAME_LEN {
        return Err(RelayError::FrameLength(len));
    }
    let n: u32 = len as u32;
    Ok([0, (n / 0x1_0000) as u8, (n / 0x100 % 0x100) as u8, (n % 0x100) as u8])
}

/// Four bytes announce one length only, so a frame ends where its sender ended it.
pub proof fn law_frame_header(a: Seq<u8>, b: Seq<u8>)
    requires
        a.len() == 4,
        b.len() == 4,
        big_endian(a) == big_endian(b),
    ensures
        a == b,
{
    assert(a =~= b);
}

/// A packet starts with its magic number, its type, the lengths of the two names and a zero, and
/// goes on with the names and the payload. It is refused exactly where a name has more than 64
/// bytes.
pub proof fn law_packet_layout(
    magic: Seq<u8>,
    msg_type: u8,
    from_id: Seq<char>,
    to_id: Seq<char>,
    payload: Seq<u8>,
)
    requires
        magic.len() == 4,
    ensures
        ({
            let made = packet_bytes(magic, msg_type, from_id, to_id, payload);
            let from = encode_utf8(from_id);
            let to = encode_utf8(to_id);
            &&& made is Ok <==> from.len() <= 64 && to.len() <= 64
            &&& made is Err ==> made->Err_0 == RelayError::IdTooLong
            &&& made matches Ok(bytes) ==> {
                &&& bytes.len() == 8 + from.len() + to.len() + payload.len()
                &&& bytes.take(4) == magic
                &&& bytes[4] == msg_type
                &&& bytes[5] == from.len()
                &&& bytes[6] == to.len()
                &&& bytes[7] == 0
                &&& bytes.subrange(8, 8 + from.len() as int) == from
                &&& bytes.subrange(8 + from.len() as int, 8 + from.len() + to.len() as int) == to
                &&& bytes.skip(8 + from.len() + to.len() as int) == payload
            }
        }),
{
    let from = encode_utf8(from_id);
    let to = encode_utf8(to_id);
    if let Ok(bytes) = packet_bytes(magic, msg_type, from_id, to_id, payload) {
        assert(bytes.take(4) =~= magic);
        assert(bytes.subrange(8, 8 + from.len() as int) =~= from);
        assert(bytes.subrange(8 + from.len() as int, 8 + from.len() + to.len() as int) =~= to);
        assert(bytes.skip(8 + from.len() + to.len() as int) =~= payload);
    }
}

/// A packet that is understood starts with its magic number, and is a registration or something to
/// send by its type. The names in it are not empty and have 64 bytes at most, and what follows them
/// is the payload.
pub proof fn law_packet_is_read_as_written(magic: Seq<u8>, buf: Seq<u8>)
    requires
        magic.len() == 4,
    ensures
        packet_in(magic, buf) matches Some(packet) ==> {
            &&& buf.len() >= 8
            &&& buf.take(4) == magic
            &&& match packet {
                RelayPacketView::Register { node_id } => buf[4] == 1 && buf[6] == 0 && buf[5] <= 64
                    && node_id.len() > 0 && valid_utf8(buf.subrange(8, 8 + buf[5] as int)) && node_id
                    == decode_utf8(buf.subrange(8, 8 + buf[5] as int)),
                RelayPacketView::Send { from_id, to_id, payload } => {
                    &&& buf[4] == 2
                    &&& buf[5] <= 64
                    &&& buf[6] <= 64
                    &&& from_id.len() > 0
                    &&& to_id.len() > 0
                    &&& from_id == decode_utf8(buf.subrange(8, 8 + buf[5] as int))
                    &&& to_id == decode_utf8(
                        buf.subrange(8 + buf[5] as int, 8 + buf[5] + buf[6] as int),
                    )
                    &&& payload == buf.skip(8 + buf[5] + buf[6] as int)
                },
            }
        },
{
    if let Some(RelayPacketView::Register { node_id }) = packet_in(magic, buf) {
        let bytes = buf.subrange(8 + buf[5] as int, 8 + buf[5] + buf[6] as int);
        vstd::utf8::decode_utf8_encode_utf8(bytes);
        lemma_encode_empty(decode_utf8(bytes));
    }
}

/// The packets of the two relays start with `LSR2` and `LSR1`, and their lengths are written with
/// the highest byte first.
pub proof fn law_wire_numbers(header: Seq<u8>)
    requires
        header.len() == 4,
    ensures
        STREAM_MAGIC@ == seq![76u8, 83u8, 82u8, 50u8],
        UDP_MAGIC@ == seq![76u8, 83u8, 82u8, 49u8],
        TYPE_DELIVER == 3,
        MAX_FRAME_LEN == 65536,
        big_endian(header) == ((header[0] * 256 + header[1]) * 256 + header[2]) * 256 + header[3],
{
    assert(STREAM_MAGIC@ =~= seq![76u8, 83u8, 82u8, 50u8]);
    assert(UDP_MAGIC@ =~= seq![76u8, 83u8, 82u8, 49u8]);
}

} // verus!
