//! Client-side protocol core for a framed, ack-correlated messaging
//! session layered on a lower-level bidirectional transport.
//!
//! The transport (connect/disconnect/emit/receive over the wire) and the
//! packet codec (bytes to packet and back) are collaborators that live
//! outside this crate; the caller talks to them and feeds their results in
//! as plain values. This crate holds the verified protocol logic: the
//! connection state machine, the translation of transport frames into
//! protocol packets, the reassembly of binary attachments, and the
//! tracking of acknowledgment ids.

pub mod error;
pub mod packet;
pub mod socket;
