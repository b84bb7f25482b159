use vstd::prelude::*;

use crate::error::Error;
use crate::packet::{
    attachments_of, is_message_kind, Frame, FrameKind, FrameView, Packet, PacketId, PacketView,
};

verus! {

// ---------------------------------------------------------------------------
// The mathematical model of a session
// ---------------------------------------------------------------------------

/// A packet whose header frame has been translated but whose binary
/// attachments are still being collected from the frame stream.
#[verifier::ext_equal]
pub struct PendingView {
    pub header: PacketView,
    /// The attachment payloads collected so far, in arrival order.
    pub collected: Seq<Seq<u8>>,
}

impl PendingView {
    /// Reassembly is only ever in progress while attachments are still
    /// owed: the header declared at least one, and fewer have arrived.
    pub open spec fn wf(self) -> bool {
        0 < self.header.attachment_count && self.collected.len() < self.header.attachment_count
    }

    /// How many attachment frames are still owed.
    pub open spec fn remaining(self) -> nat {
        (self.header.attachment_count - self.collected.len()) as nat
    }
}

/// The mathematical value of a `Socket`: the session's connection flag,
/// the id of the most recently translated packet (`-1` when it carried
/// none, or none was translated yet), and the reassembly in progress, if
/// any.
#[verifier::ext_equal]
pub struct SocketView {
    pub connected: bool,
    pub last_ack_id: int,
    pub pending: Option<PendingView>,
}

impl SocketView {
    pub open spec fn wf(self) -> bool {
        match self.pending {
            Some(pd) => pd.wf(),
            None => true,
        }
    }
}

/// The ack id a packet contributes: its own id, or `-1` when it carries
/// none.
pub open spec fn ack_of(id: Option<int>) -> int {
    match id {
        Some(i) => i,
        None => -1,
    }
}

/// How an observed packet of the given type moves the connection flag:
/// `Connect` opens the session, `ConnectError` and `Disconnect` close it,
/// every other type leaves it alone.
pub open spec fn connected_after(connected: bool, t: PacketId) -> bool {
    match t {
        PacketId::Connect => true,
        PacketId::ConnectError => false,
        PacketId::Disconnect => false,
        _ => connected,
    }
}

/// The session state after packet `p` has been fully translated and is
/// about to be yielded: the connection flag follows the packet's type, the
/// stored ack id becomes the packet's, and no reassembly is in progress.
pub open spec fn yield_update(s: SocketView, p: PacketView) -> SocketView {
    SocketView {
        connected: connected_after(s.connected, p.packet_type),
        last_ack_id: ack_of(p.id),
        pending: None,
    }
}

/// The packet a reassembly completes to: the pending header with the
/// collected payloads as its attachments.
pub open spec fn completed_packet(pd: PendingView, atts: Seq<Seq<u8>>) -> PacketView {
    PacketView { attachments: Some(atts), ..pd.header }
}

/// What one translation step reports to the caller.
pub enum SpecStep {
    /// A control frame, skipped without effect.
    Skipped,
    /// A message frame arrived while no reassembly was in progress: its
    /// payload must be decoded by the codec and handed back.
    NeedsDecode(Seq<u8>),
    /// The frame was consumed as an attachment (or the header opened a
    /// reassembly); more frames are owed before a packet can be yielded.
    Awaiting,
    /// A packet was fully translated; session state has been updated.
    Yielded(PacketView),
    /// The step failed; any reassembly in progress was dropped.
    Failed(Error),
}

/// One step of the frame translator on a raw transport frame.
///
/// While no reassembly is in progress, control frames are skipped and
/// message frames are handed out for decoding. While attachments are owed,
/// a message frame's payload is collected - completing the packet when it
/// is the last one owed - and any other kind fails the reassembly,
/// dropping the pending packet.
pub open spec fn frame_step(s: SocketView, f: FrameView) -> (SocketView, SpecStep) {
    match s.pending {
        None => {
            if is_message_kind(f.kind) {
                (s, SpecStep::NeedsDecode(f.data))
            } else {
                (s, SpecStep::Skipped)
            }
        },
        Some(pd) => {
            if is_message_kind(f.kind) {
                let collected = pd.collected.push(f.data);
                if collected.len() == pd.header.attachment_count {
                    let p = completed_packet(pd, collected);
                    (yield_update(s, p), SpecStep::Yielded(p))
                } else {
                    (
                        SocketView {
                            pending: Some(PendingView { header: pd.header, collected }),
                            ..s
                        },
                        SpecStep::Awaiting,
                    )
                }
            } else {
                (
                    SocketView { pending: None, ..s },
                    SpecStep::Failed(Error::InvalidAttachmentPacketType(f.kind)),
                )
            }
        },
    }
}

/// One step of the frame translator on a just-decoded packet header: a
/// packet that declares no attachments is complete at once; otherwise a
/// reassembly opens and the session state is untouched until it completes.
pub open spec fn packet_step(s: SocketView, p: PacketView) -> (SocketView, SpecStep) {
    if p.attachment_count == 0 {
        (yield_update(s, p), SpecStep::Yielded(p))
    } else {
        (
            SocketView {
                pending: Some(PendingView { header: p, collected: Seq::empty() }),
                ..s
            },
            SpecStep::Awaiting,
        )
    }
}

/// The session state after a disconnect: not connected, no ack id. A
/// reassembly in progress is untouched; the stream's own end reports it.
pub open spec fn disconnect_step(s: SocketView) -> SocketView {
    SocketView { connected: false, last_ack_id: -1, pending: s.pending }
}

// ---------------------------------------------------------------------------
// The executable session
// ---------------------------------------------------------------------------

/// What one translation step reports to the caller; the executable
/// counterpart of `SpecStep`.
#[derive(Debug, PartialEq, Eq)]
pub enum Step {
    /// A control frame, skipped without effect. The caller pulls the next
    /// frame.
    Skipped,
    /// A message frame arrived while no reassembly was in progress. The
    /// caller decodes the payload with the codec and hands the packet to
    /// `begin_packet`; a decode failure is the codec's error, surfaced by
    /// the caller.
    NeedsDecode(Vec<u8>),
    /// The frame was consumed; more frames are owed before a packet can be
    /// yielded. The caller pulls the next frame.
    Awaiting,
    /// A packet was fully translated and is handed to the consumer.
    Yielded(Packet),
}

/// The `SpecStep` a step result stands for.
pub open spec fn step_view(r: Result<Step, Error>) -> SpecStep {
    match r {
        Ok(Step::Skipped) => SpecStep::Skipped,
        Ok(Step::NeedsDecode(d)) => SpecStep::NeedsDecode(d@),
        Ok(Step::Awaiting) => SpecStep::Awaiting,
        Ok(Step::Yielded(p)) => SpecStep::Yielded(p@),
        Err(e) => SpecStep::Failed(e),
    }
}

struct Pending {
    header: Packet,
    collected: Vec<Vec<u8>>,
}

impl View for Pending {
    type V = PendingView;

    closed spec fn view(&self) -> PendingView {
        PendingView {
            header: self.header@,
            collected: self.collected@.map_values(|buf: Vec<u8>| buf@),
        }
    }
}

/// One protocol session. It holds no transport handle and does no I/O: the
/// caller drives it with the frames the transport produces and with the
/// outcomes of the transport's connect and disconnect calls, and it
/// answers with the packets to yield, the frames to emit, and the errors
/// to surface.
pub struct Socket {
    connected: bool,
    last_ack_id: i32,
    pending: Option<Pending>,
}

impl View for Socket {
    type V = SocketView;

    closed spec fn view(&self) -> SocketView {
        SocketView {
            connected: self.connected,
            last_ack_id: self.last_ack_id as int,
            pending: match self.pending {
                Some(pd) => Some(pd@),
                None => None,
            },
        }
    }
}

impl Socket {
    /// A fresh session: not connected, no ack id seen, no reassembly in
    /// progress.
    pub fn new() -> (s: Socket)
        ensures
            !s@.connected,
            s@.last_ack_id == -1,
            s@.pending is None,
            s@.wf(),
    {
        Socket { connected: false, last_ack_id: -1, pending: None }
    }

    /// Whether the protocol session is connected. This is the session's
    /// own flag, not the transport's liveness.
    pub fn is_connected(&self) -> (r: bool)
        ensures
            r == self@.connected,
    {
        self.connected
    }

    /// The id of the most recently translated packet, `-1` when it carried
    /// none or none was translated yet. Acks built for sending carry this
    /// id.
    pub fn last_ack_id(&self) -> (r: i32)
        ensures
            r as int == self@.last_ack_id,
    {
        self.last_ack_id
    }

    /// Whether an attachment reassembly is in progress, that is, whether
    /// the stream owes this session more frames before a packet can be
    /// yielded.
    pub fn is_reassembling(&self) -> (r: bool)
        ensures
            r == (self@.pending is Some),
    {
        self.pending.is_some()
    }

    /// Record that the transport's connect call succeeded. The session is
    /// marked connected at once, optimistically: the server's answer is
    /// what settles it, in that a later observed `ConnectError` packet
    /// flips the flag back.
    pub fn on_connect_success(&mut self)
        ensures
            final(self)@ == (SocketView { connected: true, ..old(self)@ }),
    {
        self.connected = true;
    }

    /// Reset the session on disconnect: not connected, no ack id. The
    /// caller invokes the transport's own disconnect beforehand when the
    /// transport reports itself live; this reset happens unconditionally
    /// and is idempotent.
    pub fn disconnect(&mut self)
        ensures
            final(self)@ == disconnect_step(old(self)@),
    {
        if self.connected {
            self.connected = false;
        }
        if self.last_ack_id != -1 {
            self.last_ack_id = -1;
        }
    }

    /// Record a fully translated packet: take over its ack id (or `-1`)
    /// and move the connection flag as its type dictates.
    fn apply_translated(&mut self, packet: &Packet)
        ensures
            final(self)@ == yield_update(old(self)@, packet@),
    {
        let new_ack: i32 = match packet.id {
            Some(i) => i,
            None => -1,
        };
        if self.last_ack_id != new_ack {
            self.last_ack_id = new_ack;
        }
        match packet.packet_type {
            PacketId::Connect => {
                self.connected = true;
            },
            PacketId::ConnectError => {
                self.connected = false;
            },
            PacketId::Disconnect => {
                self.connected = false;
            },
            _ => {},
        }
        self.pending = None;
    }

    /// Translate a just-decoded packet header. A packet that declares no
    /// attachments is complete at once and yielded, with the session state
    /// updated; one that declares some opens a reassembly, and the session
    /// state waits untouched for it to complete.
    ///
    /// The caller decodes only when `handle_frame` asked for it, so no
    /// reassembly is in progress here.
    pub fn begin_packet(&mut self, packet: Packet) -> (r: Step)
        requires
            old(self)@.pending is None,
        ensures
            final(self)@ == packet_step(old(self)@, packet@).0,
            step_view(Ok(r)) == packet_step(old(self)@, packet@).1,
            final(self)@.wf(),
    {
        if packet.attachment_count == 0 {
            self.apply_translated(&packet);
            Step::Yielded(packet)
        } else {
            let collected: Vec<Vec<u8>> = Vec::new();
            assert(collected@.map_values(|buf: Vec<u8>| buf@) =~= Seq::<Seq<u8>>::empty());
            self.pending = Some(Pending { header: packet, collected });
            Step::Awaiting
        }
    }

    /// Translate one raw transport frame.
    ///
    /// While no reassembly is in progress: control frames are skipped, and
    /// a message frame's payload is handed back for decoding. While
    /// attachments are owed: a message frame's payload is collected in
    /// arrival order - yielding the completed packet when it is the last
    /// one owed - and a frame of any other kind fails the reassembly with
    /// `InvalidAttachmentPacketType`, dropping the pending packet; the
    /// connection flag and ack id move only when a packet completes.
    pub fn handle_frame(&mut self, frame: Frame) -> (r: Result<Step, Error>)
        requires
            old(self)@.wf(),
        ensures
            final(self)@ == frame_step(old(self)@, frame@).0,
            step_view(r) == frame_step(old(self)@, frame@).1,
            final(self)@.wf(),
    {
        let pending = self.pending.take();
        match pending {
            None => {
                if frame.kind.is_message() {
                    Ok(Step::NeedsDecode(frame.data))
                } else {
                    Ok(Step::Skipped)
                }
            },
            Some(mut pd) => {
                if frame.kind.is_message() {
                    pd.collected.push(frame.data);
                    assert(pd@.collected =~= old(self)@.pending->0.collected.push(frame@.data));
                    if pd.collected.len() == pd.header.attachment_count {
                        let mut packet = pd.header;
                        packet.attachments = Some(pd.collected);
                        self.apply_translated(&packet);
                        Ok(Step::Yielded(packet))
                    } else {
                        self.pending = Some(pd);
                        Ok(Step::Awaiting)
                    }
                } else {
                    Err(Error::InvalidAttachmentPacketType(frame.kind))
                }
            },
        }
    }

    /// Record that the transport stream ended. While a reassembly was in
    /// progress this is a failure - the packet was incomplete and is
    /// dropped; otherwise it is the stream's orderly end and the caller
    /// reports "no more packets". The connection flag and ack id are
    /// untouched either way.
    pub fn on_stream_end(&mut self) -> (r: Result<(), Error>)
        ensures
            final(self)@ == (SocketView { pending: None, ..old(self)@ }),
            old(self)@.pending is Some ==> r == Err::<(), Error>(Error::IncompletePacket),
            old(self)@.pending is None ==> r == Ok::<(), Error>(()),
    {
        match self.pending.take() {
            Some(_) => Err(Error::IncompletePacket),
            None => Ok(()),
        }
    }

    /// The frames a packet is sent as, or the refusal to send it.
    ///
    /// Sending is allowed exactly when the transport reports itself live
    /// and the session is connected; otherwise `IllegalActionBeforeOpen`
    /// comes back and nothing is to be emitted. On success the packet
    /// travels as its header frame - a message frame carrying `encoded`,
    /// the codec's encoding of the packet - followed by one binary message
    /// frame per attachment, in order. Sending moves no session state:
    /// state follows received packets only.
    pub fn prepare_send(&self, transport_live: bool, packet: Packet, encoded: Vec<u8>) -> (r:
        Result<Vec<Frame>, Error>)
        ensures
            r is Ok <==> transport_live && self@.connected,
            !(transport_live && self@.connected) ==> r == Err::<Vec<Frame>, Error>(
                Error::IllegalActionBeforeOpen,
            ),
            r matches Ok(frames) ==> {
                let atts = attachments_of(packet@);
                &&& frames@.len() == 1 + atts.len()
                &&& frames@[0]@ == (FrameView { kind: FrameKind::Message, data: encoded@ })
                &&& forall|i: int|
                    0 <= i < atts.len() ==> (#[trigger] frames@[1 + i])@ == (FrameView {
                        kind: FrameKind::MessageBinary,
                        data: atts[i],
                    })
            },
    {
        if !transport_live || !self.connected {
            return Err(Error::IllegalActionBeforeOpen);
        }
        let mut frames: Vec<Frame> = Vec::new();
        frames.push(Frame { kind: FrameKind::Message, data: encoded });
        match packet.attachments {
            Some(mut atts) => {
                let ghost all = atts@.map_values(|buf: Vec<u8>| buf@);
                let mut i: usize = 0;
                let n = atts.len();
                while i < n
                    invariant
                        i <= n,
                        atts@.len() == n,
                        atts@.map_values(|buf: Vec<u8>| buf@) == all,
                        frames@.len() == 1 + i,
                        frames@[0]@ == (FrameView { kind: FrameKind::Message, data: encoded@ }),
                        forall|j: int|
                            0 <= j < i ==> (#[trigger] frames@[1 + j])@ == (FrameView {
                                kind: FrameKind::MessageBinary,
                                data: all[j],
                            }),
                    decreases n - i,
                {
                    let buf = atts[i].clone();
                    assert(buf@ == all[i as int]);
                    frames.push(Frame { kind: FrameKind::MessageBinary, data: buf });
                    i += 1;
                }
                Ok(frames)
            },
            None => Ok(frames),
        }
    }
}

// ---------------------------------------------------------------------------
// Laws of the translator over whole frame sequences
// ---------------------------------------------------------------------------

/// The session state after feeding a sequence of raw frames, one
/// `frame_step` at a time.
pub open spec fn run_frames(s: SocketView, fs: Seq<FrameView>) -> SocketView
    decreases fs.len(),
{
    if fs.len() == 0 {
        s
    } else {
        run_frames(frame_step(s, fs[0]).0, fs.drop_first())
    }
}

/// What each step reported while feeding a sequence of raw frames.
pub open spec fn run_outcomes(s: SocketView, fs: Seq<FrameView>) -> Seq<SpecStep>
    decreases fs.len(),
{
    if fs.len() == 0 {
        Seq::empty()
    } else {
        seq![frame_step(s, fs[0]).1] + run_outcomes(frame_step(s, fs[0]).0, fs.drop_first())
    }
}

/// The payloads of a frame sequence, in order.
pub open spec fn payloads(fs: Seq<FrameView>) -> Seq<Seq<u8>> {
    fs.map_values(|f: FrameView| f.data)
}

/// There is one outcome per frame fed.
pub proof fn lemma_run_outcomes_len(s: SocketView, fs: Seq<FrameView>)
    ensures
        run_outcomes(s, fs).len() == fs.len(),
    decreases fs.len(),
{
    if fs.len() > 0 {
        lemma_run_outcomes_len(frame_step(s, fs[0]).0, fs.drop_first());
    }
}

/// A run over one more frame is the run so far followed by one step on
/// that frame.
pub proof fn lemma_run_snoc(s: SocketView, fs: Seq<FrameView>, f: FrameView)
    ensures
        run_frames(s, fs.push(f)) == frame_step(run_frames(s, fs), f).0,
        run_outcomes(s, fs.push(f)) == run_outcomes(s, fs).push(
            frame_step(run_frames(s, fs), f).1,
        ),
    decreases fs.len(),
{
    if fs.len() == 0 {
        reveal_with_fuel(run_frames, 2);
        reveal_with_fuel(run_outcomes, 2);
        assert(fs.push(f)[0] == f);
        assert(fs.push(f).drop_first() =~= Seq::<FrameView>::empty());
        assert(fs.push(f).drop_first().len() == 0);
        assert(run_outcomes(s, fs.push(f)) =~= run_outcomes(s, fs).push(frame_step(s, f).1));
    } else {
        let s1 = frame_step(s, fs[0]).0;
        assert(fs.push(f)[0] == fs[0]);
        assert(fs.push(f).drop_first() =~= fs.drop_first().push(f));
        lemma_run_snoc(s1, fs.drop_first(), f);
        assert(run_outcomes(s, fs.push(f)) =~= run_outcomes(s, fs).push(
            frame_step(run_frames(s, fs), f).1,
        ));
    }
}

/// While strictly fewer frames arrive than the reassembly still owes, all
/// of message kind, every payload is collected in arrival order, each step
/// reports that more frames are owed, and nothing else in the session
/// moves.
pub proof fn lemma_collect_prefix(s: SocketView, fs: Seq<FrameView>)
    requires
        s.wf(),
        s.pending is Some,
        fs.len() < s.pending->0.remaining(),
        forall|i: int| 0 <= i < fs.len() ==> is_message_kind(#[trigger] fs[i].kind),
    ensures
        run_frames(s, fs) == (SocketView {
            pending: Some(
                PendingView {
                    header: s.pending->0.header,
                    collected: s.pending->0.collected + payloads(fs),
                },
            ),
            ..s
        }),
        run_frames(s, fs).wf(),
        forall|i: int| 0 <= i < fs.len() ==> run_outcomes(s, fs)[i] == SpecStep::Awaiting,
    decreases fs.len(),
{
    let pd = s.pending->0;
    if fs.len() == 0 {
        assert(pd.collected + payloads(fs) =~= pd.collected);
        assert(run_frames(s, fs) =~~= (SocketView {
            pending: Some(PendingView { header: pd.header, collected: pd.collected + payloads(fs) }),
            ..s
        }));
    } else {
        let f = fs[0];
        let s1 = frame_step(s, f).0;
        let pd1 = PendingView { header: pd.header, collected: pd.collected.push(f.data) };
        assert(is_message_kind(f.kind));
        assert(s1 == (SocketView { pending: Some(pd1), ..s }));
        lemma_collect_prefix(s1, fs.drop_first());
        assert(payloads(fs.drop_first()) =~= payloads(fs).drop_first());
        assert(pd1.collected + payloads(fs.drop_first()) =~= pd.collected + payloads(fs));
        assert(run_frames(s, fs) =~~= (SocketView {
            pending: Some(PendingView { header: pd.header, collected: pd.collected + payloads(fs) }),
            ..s
        }));
        lemma_run_outcomes_len(s1, fs.drop_first());
        assert forall|i: int| 0 <= i < fs.len() implies run_outcomes(s, fs)[i]
            == SpecStep::Awaiting by {
            if i > 0 {
                assert(run_outcomes(s, fs)[i] == run_outcomes(s1, fs.drop_first())[i - 1]);
            }
        }
    }
}

/// Law: a reassembly that still owes `k` attachment frames consumes the
/// next `k` message frames exactly; their payloads are appended in arrival
/// order behind those already collected, the completed packet is yielded
/// at the `k`-th frame and not before, and only then does the session
/// state move.
pub proof fn lemma_reassembly_in_order(s: SocketView, fs: Seq<FrameView>)
    requires
        s.wf(),
        s.pending is Some,
        fs.len() == s.pending->0.remaining(),
        forall|i: int| 0 <= i < fs.len() ==> is_message_kind(#[trigger] fs[i].kind),
    ensures
        ({
            let pd = s.pending->0;
            let p = completed_packet(pd, pd.collected + payloads(fs));
            &&& run_frames(s, fs) == yield_update(s, p)
            &&& run_outcomes(s, fs).len() == fs.len()
            &&& run_outcomes(s, fs)[fs.len() - 1] == SpecStep::Yielded(p)
            &&& forall|i: int|
                0 <= i < fs.len() - 1 ==> run_outcomes(s, fs)[i] == SpecStep::Awaiting
        }),
{
    let pd = s.pending->0;
    let k = fs.len() as int;
    let p = completed_packet(pd, pd.collected + payloads(fs));
    let prefix = fs.take(k - 1);
    let last = fs[k - 1];
    lemma_collect_prefix(s, prefix);
    let s1 = run_frames(s, prefix);
    assert(fs =~= prefix.push(last));
    lemma_run_snoc(s, prefix, last);
    lemma_run_outcomes_len(s, prefix);
    assert(payloads(prefix) =~= payloads(fs).take(k - 1));
    assert((pd.collected + payloads(prefix)).push(last.data) =~= pd.collected + payloads(fs));
    assert(frame_step(s1, last).1 == SpecStep::Yielded(p));
    assert(run_frames(s, fs) =~~= yield_update(s, p));
    assert forall|i: int| 0 <= i < k - 1 implies run_outcomes(s, fs)[i]
        == SpecStep::Awaiting by {
        assert(run_outcomes(s, fs)[i] == run_outcomes(s, prefix)[i]);
    }
}

/// Law: a frame of non-message kind arriving while attachments are owed
/// fails the reassembly with `InvalidAttachmentPacketType` naming that
/// kind; the pending packet is dropped without being yielded, and the
/// connection flag and ack id are untouched.
pub proof fn lemma_reassembly_rejects_bad_frame(s: SocketView, fs: Seq<FrameView>, j: int)
    requires
        s.wf(),
        s.pending is Some,
        0 <= j < fs.len(),
        j < s.pending->0.remaining(),
        forall|i: int| 0 <= i < j ==> is_message_kind(#[trigger] fs[i].kind),
        !is_message_kind(fs[j].kind),
    ensures
        ({
            let run = fs.take(j + 1);
            &&& run_frames(s, run) == (SocketView { pending: None, ..s })
            &&& run_outcomes(s, run).len() == j + 1
            &&& run_outcomes(s, run)[j] == SpecStep::Failed(
                Error::InvalidAttachmentPacketType(fs[j].kind),
            )
            &&& forall|i: int| 0 <= i < j ==> run_outcomes(s, run)[i] == SpecStep::Awaiting
        }),
{
    let prefix = fs.take(j);
    let run = fs.take(j + 1);
    lemma_collect_prefix(s, prefix);
    let s1 = run_frames(s, prefix);
    assert(run =~= prefix.push(fs[j]));
    lemma_run_snoc(s, prefix, fs[j]);
    lemma_run_outcomes_len(s, prefix);
    assert(run_frames(s, run) =~~= (SocketView { pending: None, ..s }));
    assert forall|i: int| 0 <= i < j implies run_outcomes(s, run)[i] == SpecStep::Awaiting by {
        assert(run_outcomes(s, run)[i] == run_outcomes(s, prefix)[i]);
    }
}

/// Law: a packet declaring `k > 0` attachments opens a reassembly that
/// consumes exactly the next `k` message frames, whose payloads become the
/// packet's attachments in arrival order; the packet is yielded at the
/// `k`-th frame and not before.
pub proof fn lemma_packet_reassembly(s: SocketView, p: PacketView, fs: Seq<FrameView>)
    requires
        p.attachment_count > 0,
        fs.len() == p.attachment_count,
        forall|i: int| 0 <= i < fs.len() ==> is_message_kind(#[trigger] fs[i].kind),
    ensures
        ({
            let s1 = packet_step(s, p).0;
            let done = PacketView { attachments: Some(payloads(fs)), ..p };
            &&& packet_step(s, p).1 == SpecStep::Awaiting
            &&& attachments_of(done).len() == done.attachment_count
            &&& run_frames(s1, fs) == yield_update(s, done)
            &&& run_outcomes(s1, fs).len() == fs.len()
            &&& run_outcomes(s1, fs)[fs.len() - 1] == SpecStep::Yielded(done)
            &&& forall|i: int|
                0 <= i < fs.len() - 1 ==> run_outcomes(s1, fs)[i] == SpecStep::Awaiting
        }),
{
    let s1 = packet_step(s, p).0;
    let done = PacketView { attachments: Some(payloads(fs)), ..p };
    lemma_reassembly_in_order(s1, fs);
    assert(Seq::<Seq<u8>>::empty() + payloads(fs) =~= payloads(fs));
    assert(completed_packet(s1.pending->0, s1.pending->0.collected + payloads(fs)) =~~= done);
    assert(yield_update(s1, done) =~~= yield_update(s, done));
}

/// Law: disconnecting always lands in the reset state - not connected, no
/// ack id - whatever the prior state, and doing it twice is the same as
/// doing it once.
pub proof fn lemma_disconnect_resets(s: SocketView)
    ensures
        !disconnect_step(s).connected,
        disconnect_step(s).last_ack_id == -1,
        disconnect_step(disconnect_step(s)) == disconnect_step(s),
{
}

/// Law: a translated `Connect` packet opens the session, `ConnectError`
/// and `Disconnect` close it, and a packet of any other type leaves the
/// connection flag as it was.
pub proof fn lemma_connection_transitions(s: SocketView, p: PacketView)
    ensures
        p.packet_type is Connect ==> yield_update(s, p).connected,
        p.packet_type is ConnectError ==> !yield_update(s, p).connected,
        p.packet_type is Disconnect ==> !yield_update(s, p).connected,
        !(p.packet_type is Connect || p.packet_type is ConnectError
            || p.packet_type is Disconnect) ==> yield_update(s, p).connected == s.connected,
{
}

/// Law: after a packet is translated, the stored ack id is that packet's
/// id, or `-1` when it carries none - whatever the packet's type.
pub proof fn lemma_ack_follows_translated(s: SocketView, p: PacketView)
    ensures
        yield_update(s, p).last_ack_id == ack_of(p.id),
        p.id is None ==> yield_update(s, p).last_ack_id == -1,
        p.id matches Some(i) ==> yield_update(s, p).last_ack_id == i,
{
}

} // verus!
