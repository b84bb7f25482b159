use vstd::prelude::*;

use crate::packet::FrameKind;

verus! {

/// The failures this core raises itself. Transport and codec failures are
/// surfaced by the caller that talks to those collaborators and are never
/// constructed here.
#[derive(Clone, Copy, Debug, PartialEq, Eq, Structural)]
pub enum Error {
    /// A send was attempted while the transport was not live or the
    /// protocol session was not connected. Recoverable: the caller may
    /// connect and retry.
    IllegalActionBeforeOpen,
    /// A frame pulled during attachment reassembly had a kind other than
    /// message or binary message; carries the offending kind. The packet
    /// under reassembly is dropped, the session stays usable.
    InvalidAttachmentPacketType(FrameKind),
    /// The transport stream ended while attachments were still
    /// outstanding.
    IncompletePacket,
}

} // verus!
