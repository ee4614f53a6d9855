//! The peer wire codec: the 68-byte handshake and length-prefixed messages.
use vstd::prelude::*;
use vstd::string::StringSliceAdditionalSpecFns;
use crate::bytes::{append_bytes, be32, bytes_equal, copy_range, from_be32, push_be32, read_be32, lemma_be32_round_trip};

verus! {

/// The largest block a peer may request or send.
pub const MAX_BLOCK_LEN: u32 = 131072;

/// The largest length prefix accepted: a `piece` header around the largest block.
pub const MAX_MESSAGE_LENGTH: u32 = MAX_BLOCK_LEN + 9;

/// The length of an encoded handshake.
pub const HANDSHAKE_LEN: usize = 68;

/// What went wrong while decoding the peer wire.
#[derive(Debug, PartialEq, Eq, Structural)]
pub enum WireError {
    /// Fewer bytes than the frame announces.
    Incomplete,
    /// A length prefix past `MAX_MESSAGE_LENGTH`.
    FrameTooLarge,
    /// The handshake names another protocol or another torrent.
    HandshakeRejected,
}

/// The kind of a framed message, by its one-byte id.
#[derive(Debug, PartialEq, Eq, Structural, Clone, Copy)]
pub enum MessageId {
    Choke,
    Unchoke,
    Interested,
    NotInterested,
    Have,
    Bitfield,
    Request,
    Piece,
    Cancel,
    Port,
    /// An id this client does not know; kept so that it can be skipped.
    Unknown(u8),
}

/// The id byte of each kind.
pub open spec fn id_byte(m: MessageId) -> u8 {
    match m {
        MessageId::Choke => 0,
        MessageId::Unchoke => 1,
        MessageId::Interested => 2,
        MessageId::NotInterested => 3,
        MessageId::Have => 4,
        MessageId::Bitfield => 5,
        MessageId::Request => 6,
        MessageId::Piece => 7,
        MessageId::Cancel => 8,
        MessageId::Port => 9,
        MessageId::Unknown(b) => b,
    }
}

/// The kind named by an id byte.
pub open spec fn id_of_byte(b: u8) -> MessageId {
    if b == 0 {
        MessageId::Choke
    } else if b == 1 {
        MessageId::Unchoke
    } else if b == 2 {
        MessageId::Interested
    } else if b == 3 {
        MessageId::NotInterested
    } else if b == 4 {
        MessageId::Have
    } else if b == 5 {
        MessageId::Bitfield
    } else if b == 6 {
        MessageId::Request
    } else if b == 7 {
        MessageId::Piece
    } else if b == 8 {
        MessageId::Cancel
    } else if b == 9 {
        MessageId::Port
    } else {
        MessageId::Unknown(b)
    }
}

impl MessageId {
    /// A known kind, or `Unknown` carrying a byte no known kind uses.
    pub open spec fn canonical(self) -> bool {
        self matches MessageId::Unknown(b) ==> b > 9
    }

    /// The kind named by `id`.
    pub fn get_id(id: u8) -> (r: MessageId)
        ensures
            r == id_of_byte(id),
            r.canonical(),
            id_byte(r) == id,
    {
        match id {
            0 => MessageId::Choke,
            1 => MessageId::Unchoke,
            2 => MessageId::Interested,
            3 => MessageId::NotInterested,
            4 => MessageId::Have,
            5 => MessageId::Bitfield,
            6 => MessageId::Request,
            7 => MessageId::Piece,
            8 => MessageId::Cancel,
            9 => MessageId::Port,
            b => MessageId::Unknown(b),
        }
    }

    /// The id byte of this kind.
    pub fn convert(&self) -> (r: u8)
        ensures
            r == id_byte(*self),
            self.canonical() ==> id_of_byte(r) == *self,
    {
        match self {
            MessageId::Choke => 0,
            MessageId::Unchoke => 1,
            MessageId::Interested => 2,
            MessageId::NotInterested => 3,
            MessageId::Have => 4,
            MessageId::Bitfield => 5,
            MessageId::Request => 6,
            MessageId::Piece => 7,
            MessageId::Cancel => 8,
            MessageId::Port => 9,
            MessageId::Unknown(b) => *b,
        }
    }
}

/// One framed message: a keep-alive (no id) or an id with its payload.
#[derive(Debug)]
pub struct Message {
    pub id: Option<MessageId>,
    pub payload: Vec<u8>,
}

/// A message as a value: `None` for keep-alive, else its id byte and payload.
pub type MessageView = Option<(u8, Seq<u8>)>;

/// The bytes of a message on the wire.
pub open spec fn frame_bytes(m: MessageView) -> Seq<u8> {
    match m {
        None => be32(0),
        Some((id, payload)) => be32((payload.len() + 1) as u32) + seq![id] + payload,
    }
}

/// Whether a message fits under the length cap.
pub open spec fn frame_fits(m: MessageView) -> bool {
    m matches Some((_, payload)) ==> payload.len() + 1 <= MAX_MESSAGE_LENGTH
}

/// How the first frame of `b` decodes: the message and the bytes it takes,
/// or why it cannot.
pub open spec fn decode_frame(b: Seq<u8>) -> Result<(MessageView, nat), WireError> {
    if b.len() < 4 {
        Err(WireError::Incomplete)
    } else {
        let len = from_be32(b);
        if len > MAX_MESSAGE_LENGTH {
            Err(WireError::FrameTooLarge)
        } else if b.len() < 4 + len {
            Err(WireError::Incomplete)
        } else if len == 0 {
            Ok((None, 4))
        } else {
            Ok((Some((b[4], b.subrange(5, 4 + len))), (4 + len) as nat))
        }
    }
}

impl View for Message {
    type V = MessageView;

    open spec fn view(&self) -> MessageView {
        match self.id {
            None => None,
            Some(id) => Some((id_byte(id), self.payload@)),
        }
    }
}

impl Message {
    /// Keep-alives carry no payload; ids are canonical; the frame fits the cap.
    pub open spec fn wf(&self) -> bool {
        &&& self.id is None ==> self.payload@.len() == 0
        &&& self.id matches Some(id) ==> id.canonical()
        &&& frame_fits(self@)
    }

    /// Builds a message; `None` as id makes a keep-alive, whose payload is dropped.
    pub fn new(id: Option<MessageId>, payload: Vec<u8>) -> (r: Message)
        requires
            payload@.len() + 1 <= MAX_MESSAGE_LENGTH,
            id matches Some(i) ==> i.canonical(),
        ensures
            r.wf(),
            r.id == id,
            id is Some ==> r.payload@ == payload@,
    {
        match id {
            None => Message { id: None, payload: Vec::new() },
            Some(i) => Message { id: Some(i), payload },
        }
    }

    pub fn keep_alive() -> (r: Message)
        ensures
            r.wf(),
            r@ == None::<(u8, Seq<u8>)>,
    {
        Message { id: None, payload: Vec::new() }
    }

    /// A message without payload: choke, unchoke, interested, not-interested.
    pub fn bare(id: MessageId) -> (r: Message)
        requires
            id.canonical(),
        ensures
            r.wf(),
            r@ == Some((id_byte(id), Seq::<u8>::empty())),
    {
        Message { id: Some(id), payload: Vec::new() }
    }

    /// `have(index)`.
    pub fn have(index: u32) -> (r: Message)
        ensures
            r.wf(),
            r@ == Some((4u8, be32(index))),
    {
        let mut payload: Vec<u8> = Vec::new();
        push_be32(&mut payload, index);
        Message { id: Some(MessageId::Have), payload }
    }

    /// `request(index, begin, length)`.
    pub fn request(index: u32, begin: u32, length: u32) -> (r: Message)
        ensures
            r.wf(),
            r.id == Some(MessageId::Request),
            r.payload@ == be32(index) + be32(begin) + be32(length),
            r@ == Some((6u8, be32(index) + be32(begin) + be32(length))),
    {
        let mut payload: Vec<u8> = Vec::new();
        push_be32(&mut payload, index);
        push_be32(&mut payload, begin);
        push_be32(&mut payload, length);
        Message { id: Some(MessageId::Request), payload }
    }

    /// `cancel(index, begin, length)`.
    pub fn cancel(index: u32, begin: u32, length: u32) -> (r: Message)
        ensures
            r.wf(),
            r@ == Some((8u8, be32(index) + be32(begin) + be32(length))),
    {
        let mut payload: Vec<u8> = Vec::new();
        push_be32(&mut payload, index);
        push_be32(&mut payload, begin);
        push_be32(&mut payload, length);
        Message { id: Some(MessageId::Cancel), payload }
    }

    /// `bitfield(bits)`.
    pub fn bitfield(bits: &Vec<u8>) -> (r: Message)
        requires
            bits@.len() + 1 <= MAX_MESSAGE_LENGTH,
        ensures
            r.wf(),
            r@ == Some((5u8, bits@)),
    {
        let mut payload: Vec<u8> = Vec::new();
        append_bytes(&mut payload, bits.as_slice());
        Message { id: Some(MessageId::Bitfield), payload }
    }

    /// `piece(index, begin, block)`.
    pub fn piece(index: u32, begin: u32, block: &Vec<u8>) -> (r: Message)
        requires
            block@.len() <= MAX_BLOCK_LEN,
        ensures
            r.wf(),
            r@ == Some((7u8, be32(index) + be32(begin) + block@)),
    {
        let mut payload: Vec<u8> = Vec::new();
        push_be32(&mut payload, index);
        push_be32(&mut payload, begin);
        append_bytes(&mut payload, block.as_slice());
        Message { id: Some(MessageId::Piece), payload }
    }

    /// The number of bytes the message takes on the wire.
    pub fn frame_len(&self) -> (r: usize)
        requires
            self.wf(),
        ensures
            r == frame_bytes(self@).len(),
    {
        match self.id {
            None => 4,
            Some(_) => 5 + self.payload.len(),
        }
    }

    /// Serializes the message as `<length><id><payload>`, the length four
    /// bytes big-endian; a keep-alive is four zero bytes.
    pub fn byte_serialize(&self) -> (r: Vec<u8>)
        requires
            self.wf(),
        ensures
            r@ == frame_bytes(self@),
    {
        let mut ret: Vec<u8> = Vec::new();
        match &self.id {
            None => {
                push_be32(&mut ret, 0);
            },
            Some(id) => {
                push_be32(&mut ret, (self.payload.len() + 1) as u32);
                ret.push(id.convert());
                append_bytes(&mut ret, self.payload.as_slice());
            },
        }
        ret
    }

    /// Decodes the frame at the start of `message`; bytes after it are left
    /// for the next call.
    pub fn read(message: Vec<u8>) -> (r: Result<Message, WireError>)
        ensures
            match (r, decode_frame(message@)) {
                (Ok(m), Ok((v, _))) => m@ == v && m.wf(),
                (Err(e), Err(f)) => e == f,
                _ => false,
            },
    {
        if message.len() < 4 {
            return Err(WireError::Incomplete);
        }
        let length = read_be32(message.as_slice(), 0);
        assert(from_be32(message@.subrange(0, 4)) == from_be32(message@));
        if length > MAX_MESSAGE_LENGTH {
            return Err(WireError::FrameTooLarge);
        }
        if message.len() - 4 < length as usize {
            return Err(WireError::Incomplete);
        }
        if length == 0 {
            return Ok(Message { id: None, payload: Vec::new() });
        }
        let id = MessageId::get_id(message[4]);
        let payload = copy_range(message.as_slice(), 5, 4 + length as usize);
        Ok(Message { id: Some(id), payload })
    }
}

/// Decoding an encoded message gives it back, and takes exactly its bytes.
pub proof fn lemma_message_round_trip(m: MessageView)
    requires
        frame_fits(m),
    ensures
        decode_frame(frame_bytes(m)) == Ok::<(MessageView, nat), WireError>((m, frame_bytes(m).len())),
{
    let b = frame_bytes(m);
    match m {
        None => {
            lemma_be32_round_trip(0);
            assert(from_be32(b) == 0);
        },
        Some((id, payload)) => {
            let len = (payload.len() + 1) as u32;
            lemma_be32_round_trip(len);
            assert(b.subrange(0, 4) =~= be32(len));
            assert(from_be32(b) == from_be32(be32(len)));
            assert(b[4] == id);
            assert(b.subrange(5, 4 + len) =~= payload);
        },
    }
}

/// The protocol name that opens every handshake.
pub open spec fn protocol_name() -> Seq<u8> {
    seq![66u8, 105, 116, 84, 111, 114, 114, 101, 110, 116, 32, 112, 114, 111, 116, 111, 99, 111, 108]
}

/// The bytes of a handshake: `<19><protocol name><reserved><info_hash><peer_id>`.
pub open spec fn handshake_bytes(reserved: Seq<u8>, info_hash: Seq<u8>, peer_id: Seq<u8>) -> Seq<u8> {
    seq![19u8] + protocol_name() + reserved + info_hash + peer_id
}

/// How the first 68 bytes of `b` decode as a handshake: its reserved bytes,
/// info hash and peer id.
pub open spec fn decode_handshake(b: Seq<u8>) -> Result<(Seq<u8>, Seq<u8>, Seq<u8>), WireError> {
    if b.len() < 68 {
        Err(WireError::Incomplete)
    } else if b.subrange(0, 20) != seq![19u8] + protocol_name() {
        Err(WireError::HandshakeRejected)
    } else {
        Ok((b.subrange(20, 28), b.subrange(28, 48), b.subrange(48, 68)))
    }
}

/// The greeting exchanged before any framed message.
#[derive(Debug)]
pub struct Handshake {
    /// Eight bytes of extension flags; this client sends zeros.
    pub reserved_bytes: Vec<u8>,
    pub info_hash: Vec<u8>,
    pub peer_id: Vec<u8>,
}

/// The handshake opening bytes, `<19><protocol name>`.
fn handshake_prefix() -> (r: Vec<u8>)
    ensures
        r@ == seq![19u8] + protocol_name(),
{
    let r: Vec<u8> = vec![19u8, 66, 105, 116, 84, 111, 114, 114, 101, 110, 116, 32, 112, 114, 111, 116, 111, 99, 111, 108];
    assert(r@ =~= seq![19u8] + protocol_name());
    r
}

impl View for Handshake {
    type V = (Seq<u8>, Seq<u8>, Seq<u8>);

    open spec fn view(&self) -> (Seq<u8>, Seq<u8>, Seq<u8>) {
        (self.reserved_bytes@, self.info_hash@, self.peer_id@)
    }
}

impl Handshake {
    /// Eight reserved bytes, a 20-byte info hash and a 20-byte peer id.
    pub open spec fn wf(&self) -> bool {
        &&& self.reserved_bytes@.len() == 8
        &&& self.info_hash@.len() == 20
        &&& self.peer_id@.len() == 20
    }

    /// Our handshake for the torrent `info_hash`, sent as peer `peer_id`.
    pub fn new(info_hash: Vec<u8>, peer_id: &str) -> (r: Handshake)
        requires
            info_hash@.len() == 20,
            peer_id.spec_bytes().len() == 20,
        ensures
            r.wf(),
            r@ == (Seq::new(8, |i: int| 0u8), info_hash@, peer_id.spec_bytes()),
    {
        let reserved_bytes: Vec<u8> = vec![0u8, 0, 0, 0, 0, 0, 0, 0];
        assert(reserved_bytes@ =~= Seq::new(8, |i: int| 0u8));
        let mut id: Vec<u8> = Vec::new();
        append_bytes(&mut id, peer_id.as_bytes());
        Handshake { reserved_bytes, info_hash, peer_id: id }
    }

    /// The 68 bytes of the handshake.
    pub fn serialize(&self) -> (r: Vec<u8>)
        requires
            self.wf(),
        ensures
            r@ == handshake_bytes(self.reserved_bytes@, self.info_hash@, self.peer_id@),
            r@.len() == HANDSHAKE_LEN,
    {
        let mut s_bytes = handshake_prefix();
        append_bytes(&mut s_bytes, self.reserved_bytes.as_slice());
        append_bytes(&mut s_bytes, self.info_hash.as_slice());
        append_bytes(&mut s_bytes, self.peer_id.as_slice());
        s_bytes
    }

    /// Decodes the handshake at the start of `message`.
    pub fn deserialize(message: Vec<u8>) -> (r: Result<Handshake, WireError>)
        ensures
            match (r, decode_handshake(message@)) {
                (Ok(h), Ok(v)) => h@ == v && h.wf(),
                (Err(e), Err(f)) => e == f,
                _ => false,
            },
    {
        if message.len() < HANDSHAKE_LEN {
            return Err(WireError::Incomplete);
        }
        let prefix = handshake_prefix();
        let head = copy_range(message.as_slice(), 0, 20);
        if !bytes_equal(head.as_slice(), prefix.as_slice()) {
            return Err(WireError::HandshakeRejected);
        }
        let reserved_bytes = copy_range(message.as_slice(), 20, 28);
        let info_hash = copy_range(message.as_slice(), 28, 48);
        let peer_id = copy_range(message.as_slice(), 48, 68);
        Ok(Handshake { reserved_bytes, info_hash, peer_id })
    }

    /// Whether the peer's handshake names the torrent `info_hash`.
    pub fn accepts(&self, info_hash: &Vec<u8>) -> (r: bool)
        ensures
            r == (self.info_hash@ == info_hash@),
    {
        bytes_equal(self.info_hash.as_slice(), info_hash.as_slice())
    }

    pub fn get_hash(&self) -> (r: &Vec<u8>)
        ensures
            r@ == self.info_hash@,
    {
        &self.info_hash
    }

    pub fn get_peer_id(&self) -> (r: &Vec<u8>)
        ensures
            r@ == self.peer_id@,
    {
        &self.peer_id
    }
}

/// Decoding an encoded handshake gives it back.
pub proof fn lemma_handshake_round_trip(reserved: Seq<u8>, info_hash: Seq<u8>, peer_id: Seq<u8>)
    requires
        reserved.len() == 8,
        info_hash.len() == 20,
        peer_id.len() == 20,
    ensures
        decode_handshake(handshake_bytes(reserved, info_hash, peer_id))
            == Ok::<(Seq<u8>, Seq<u8>, Seq<u8>), WireError>((reserved, info_hash, peer_id)),
{
    let b = handshake_bytes(reserved, info_hash, peer_id);
    assert(b.subrange(0, 20) =~= seq![19u8] + protocol_name());
    assert(b.subrange(20, 28) =~= reserved);
    assert(b.subrange(28, 48) =~= info_hash);
    assert(b.subrange(48, 68) =~= peer_id);
}

} // verus!
