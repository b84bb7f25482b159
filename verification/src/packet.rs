use vstd::prelude::*;

verus! {

/// The kind tag carried by one transport frame. It mirrors the transport's
/// own frame identifiers: only `Message` and `MessageBinary` carry protocol
/// data; every other kind is a transport-level control frame that the
/// protocol core skips.
#[derive(Clone, Copy, Debug, PartialEq, Eq, Structural)]
pub enum FrameKind {
    Open,
    Close,
    Ping,
    Pong,
    Message,
    MessageBinary,
    Upgrade,
    Noop,
}

/// Whether a frame of this kind carries protocol data.
pub open spec fn is_message_kind(k: FrameKind) -> bool {
    k == FrameKind::Message || k == FrameKind::MessageBinary
}

impl FrameKind {
    /// Whether this frame kind carries protocol data.
    pub fn is_message(&self) -> (r: bool)
        ensures
            r == is_message_kind(*self),
    {
        match self {
            FrameKind::Message => true,
            FrameKind::MessageBinary => true,
            _ => false,
        }
    }
}

/// One opaque unit received from or handed to the transport: a kind tag
/// and a byte payload.
#[derive(Clone, Debug, PartialEq, Eq)]
pub struct Frame {
    pub kind: FrameKind,
    pub data: Vec<u8>,
}

/// The mathematical value of a `Frame`.
#[verifier::ext_equal]
pub struct FrameView {
    pub kind: FrameKind,
    pub data: Seq<u8>,
}

impl View for Frame {
    type V = FrameView;

    open spec fn view(&self) -> FrameView {
        FrameView { kind: self.kind, data: self.data@ }
    }
}

/// The type of a protocol packet.
#[derive(Clone, Copy, Debug, PartialEq, Eq, Structural)]
pub enum PacketId {
    Connect,
    Disconnect,
    Event,
    Ack,
    ConnectError,
    BinaryEvent,
    BinaryAck,
}

/// One protocol-level message: the unit this core yields to its caller and
/// accepts for sending. Its byte encoding is the codec collaborator's
/// business; this core never reads `data`.
#[derive(Clone, Debug, PartialEq, Eq)]
pub struct Packet {
    pub packet_type: PacketId,
    /// The namespace the packet belongs to, passed through untouched.
    pub nsp: String,
    /// The payload as the codec encodes it, passed through untouched.
    pub data: Option<String>,
    /// The ack-correlation id, if the packet carries one.
    pub id: Option<i32>,
    /// How many binary attachment frames follow the packet's header frame.
    pub attachment_count: usize,
    /// The reassembled attachments, in arrival order. `Some` with exactly
    /// `attachment_count` entries once reassembly completes; what the codec
    /// decoded (normally `None`) before.
    pub attachments: Option<Vec<Vec<u8>>>,
}

/// The mathematical value of a `Packet`.
#[verifier::ext_equal]
pub struct PacketView {
    pub packet_type: PacketId,
    pub nsp: Seq<char>,
    pub data: Option<Seq<char>>,
    pub id: Option<int>,
    pub attachment_count: nat,
    pub attachments: Option<Seq<Seq<u8>>>,
}

impl View for Packet {
    type V = PacketView;

    open spec fn view(&self) -> PacketView {
        PacketView {
            packet_type: self.packet_type,
            nsp: self.nsp@,
            data: match self.data {
                Some(d) => Some(d@),
                None => None,
            },
            id: match self.id {
                Some(i) => Some(i as int),
                None => None,
            },
            attachment_count: self.attachment_count as nat,
            attachments: match self.attachments {
                Some(a) => Some(a@.map_values(|buf: Vec<u8>| buf@)),
                None => None,
            },
        }
    }
}

/// The attachments a packet carries, the empty sequence when it carries
/// none.
pub open spec fn attachments_of(p: PacketView) -> Seq<Seq<u8>> {
    match p.attachments {
        Some(a) => a,
        None => Seq::empty(),
    }
}

} // verus!
