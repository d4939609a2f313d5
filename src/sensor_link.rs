use crate::link::{
    data_frames, frame_bytes, frame_payloads, parse_frame, GatewayId, LinkPacket, LinkPhase,
    RxBuffer, SensorBoardId, TxBuffer, TX_CAPACITY,
};
use vstd::prelude::*;

verus! {

/// Where a sensor board's link stands: looking for the gateway, or in a
/// session under the id the gateway gave it.
#[derive(Clone, Copy, Debug, PartialEq, Eq, Structural)]
pub enum SensorBoardLinkPhase {
    Handshake,
    Data(SensorBoardId),
}

/// What a reply to a link handshake did.
pub enum ConnectOutcome {
    /// Not a valid frame; keep waiting for the reply.
    Ignored,
    /// The gateway echoed this board's address: the session has this id.
    Connected(SensorBoardId),
    /// A valid frame that is no answer to this board; try again later.
    Rejected,
}

/// What the sensor board's link did with a received frame.
pub enum SensorFrameAction {
    /// The frame was dropped: too short, a bad tag, or another session's id.
    Ignored,
    /// The link is not (or no longer) in a session and must handshake again.
    Reconnect,
    /// The frame's payload can now be read.
    Payload,
}

/// Whether two byte strings are equal.
fn bytes_equal(a: &[u8], b: &[u8]) -> (r: bool)
    ensures
        r == (a@ == b@),
{
    if a.len() != b.len() {
        return false;
    }
    let mut i: usize = 0;
    while i < a.len()
        invariant
            a.len() == b.len(),
            i <= a.len(),
            a@.take(i as int) == b@.take(i as int),
        decreases a.len() - i,
    {
        if a[i] != b[i] {
            assert(a@[i as int] != b@[i as int]);
            return false;
        }
        assert(a@.take(i + 1) =~= a@.take(i as int).push(a@[i as int]));
        assert(b@.take(i + 1) =~= b@.take(i as int).push(b@[i as int]));
        i = i + 1;
    }
    assert(a@ =~= a@.take(i as int));
    assert(b@ =~= b@.take(i as int));
    true
}

/// A sensor board's link layer: joins the gateway with a handshake that
/// carries the board's address, then frames data under the id it got.
pub struct SensorBoardLinkLayer {
    phase: SensorBoardLinkPhase,
    mac: Vec<u8>,
    secret: Vec<u8>,
    tx_buf: TxBuffer,
    rx: RxBuffer,
}

impl SensorBoardLinkLayer {
    pub closed spec fn phase(&self) -> SensorBoardLinkPhase {
        self.phase
    }

    /// The board's address, sent as the handshake payload.
    pub closed spec fn mac(&self) -> Seq<u8> {
        self.mac@
    }

    /// The shared secret frames are signed with.
    pub closed spec fn key(&self) -> Seq<u8> {
        self.secret@
    }

    /// Bytes written and not yet sent.
    pub closed spec fn tx(&self) -> Seq<u8> {
        self.tx_buf.contents()
    }

    /// Received bytes not yet read.
    pub closed spec fn rx(&self) -> Seq<u8> {
        self.rx.pending()
    }

    pub closed spec fn wf(&self) -> bool {
        &&& self.tx_buf.wf()
        &&& self.rx.wf()
    }

    pub fn new(secret: Vec<u8>, mac: Vec<u8>) -> (r: SensorBoardLinkLayer)
        ensures
            r.wf(),
            r.phase() == SensorBoardLinkPhase::Handshake,
            r.key() == secret@,
            r.mac() == mac@,
            r.tx() == Seq::<u8>::empty(),
            r.rx() == Seq::<u8>::empty(),
    {
        SensorBoardLinkLayer {
            phase: SensorBoardLinkPhase::Handshake,
            mac,
            secret,
            tx_buf: TxBuffer::new(),
            rx: RxBuffer::new(),
        }
    }

    /// The session id, when the link is in a session.
    pub fn connected_id(&self) -> (r: Option<SensorBoardId>)
        ensures
            r == (match self.phase() {
                SensorBoardLinkPhase::Data(id) => Some(id),
                SensorBoardLinkPhase::Handshake => None::<SensorBoardId>,
            }),
    {
        match self.phase {
            SensorBoardLinkPhase::Data(id) => Some(id),
            SensorBoardLinkPhase::Handshake => None,
        }
    }

    /// The handshake frame: the board's address under id 0.
    pub fn handshake_frame(&self) -> (r: Vec<u8>)
        ensures
            r@ == frame_bytes(LinkPhase::Handshake, 0, self.mac(), self.key()),
    {
        let mut mac: Vec<u8> = Vec::new();
        let mut i: usize = 0;
        while i < self.mac.len()
            invariant
                mac@ == self.mac@.take(i as int),
                i <= self.mac.len(),
            decreases self.mac.len() - i,
        {
            mac.push(self.mac[i]);
            assert(self.mac@.take(i + 1) =~= self.mac@.take(i as int).push(self.mac@[i as int]));
            i = i + 1;
        }
        assert(self.mac@.take(self.mac.len() as int) =~= self.mac@);
        let packet = LinkPacket { phase: LinkPhase::Handshake, id: 0, payload: mac };
        packet.write(self.secret.as_slice())
    }

    /// Handles a frame received while waiting for the handshake reply: a
    /// handshake frame that echoes this board's address opens the session
    /// under the id it carries.
    pub fn on_handshake_reply(&mut self, frame: &[u8]) -> (r: ConnectOutcome)
        requires
            old(self).wf(),
        ensures
            final(self).wf(),
            final(self).mac() == old(self).mac(),
            final(self).key() == old(self).key(),
            final(self).tx() == old(self).tx(),
            final(self).rx() == old(self).rx(),
            match parse_frame(frame@, old(self).key()) {
                None => r is Ignored && final(self).phase() == old(self).phase(),
                Some((phase, id)) => if phase == LinkPhase::Handshake && frame@.skip(5) == old(self).mac() {
                    r == ConnectOutcome::Connected(SensorBoardId(id)) && final(self).phase()
                        == SensorBoardLinkPhase::Data(SensorBoardId(id))
                } else {
                    r is Rejected && final(self).phase() == SensorBoardLinkPhase::Handshake
                },
            },
    {
        let (phase, id) = match LinkPacket::read(frame, self.secret.as_slice()) {
            Some(h) => h,
            None => return ConnectOutcome::Ignored,
        };
        let payload = LinkPacket::get_payload(frame);
        if phase == LinkPhase::Handshake && bytes_equal(payload.as_slice(), self.mac.as_slice()) {
            self.phase = SensorBoardLinkPhase::Data(SensorBoardId(id));
            ConnectOutcome::Connected(SensorBoardId(id))
        } else {
            self.phase = SensorBoardLinkPhase::Handshake;
            ConnectOutcome::Rejected
        }
    }

    /// Handles a frame received in a session: a data frame of this session
    /// becomes readable; a frame of another id is dropped; a handshake frame
    /// for this id ends the session.
    pub fn on_frame(&mut self, frame: &[u8]) -> (r: SensorFrameAction)
        requires
            old(self).wf(),
        ensures
            final(self).wf(),
            final(self).mac() == old(self).mac(),
            final(self).key() == old(self).key(),
            final(self).tx() == old(self).tx(),
            match old(self).phase() {
                SensorBoardLinkPhase::Handshake => r is Reconnect && final(self).phase() == old(self).phase() && final(self).rx() == old(self).rx(),
                SensorBoardLinkPhase::Data(sid) => match parse_frame(frame@, old(self).key()) {
                    None => r is Ignored && final(self).phase() == old(self).phase() && final(self).rx() == old(self).rx(),
                    Some((phase, id)) => if id != sid.0 {
                        r is Ignored && final(self).phase() == old(self).phase() && final(self).rx() == old(self).rx()
                    } else if phase != LinkPhase::Data {
                        r is Reconnect && final(self).phase() == SensorBoardLinkPhase::Handshake
                            && final(self).rx() == old(self).rx()
                    } else {
                        r is Payload && final(self).phase() == old(self).phase() && final(self).rx() == frame@.skip(5)
                    },
                },
            },
    {
        let sid = match self.phase {
            SensorBoardLinkPhase::Data(sid) => sid,
            SensorBoardLinkPhase::Handshake => return SensorFrameAction::Reconnect,
        };
        let (phase, id) = match LinkPacket::read(frame, self.secret.as_slice()) {
            Some(h) => h,
            None => return SensorFrameAction::Ignored,
        };
        if id != sid.0 {
            return SensorFrameAction::Ignored;
        }
        if phase != LinkPhase::Data {
            self.phase = SensorBoardLinkPhase::Handshake;
            return SensorFrameAction::Reconnect;
        }
        self.rx.set(LinkPacket::get_payload(frame));
        SensorFrameAction::Payload
    }

    /// The number of received bytes not read yet.
    pub fn rx_len(&self) -> (r: usize)
        requires
            self.wf(),
        ensures
            r == self.rx().len(),
    {
        self.rx.len()
    }

    /// Whether the received payload was read to its end, so that the next
    /// frame is needed.
    pub fn needs_frame(&self) -> (r: bool)
        requires
            self.wf(),
        ensures
            r == (self.rx().len() == 0),
    {
        self.rx.is_empty()
    }

    /// Reads up to `max` received bytes; they come from the gateway.
    pub fn read(&mut self, max: usize) -> (r: (Vec<u8>, GatewayId))
        requires
            old(self).wf(),
        ensures
            final(self).wf(),
            final(self).phase() == old(self).phase(),
            final(self).mac() == old(self).mac(),
            final(self).key() == old(self).key(),
            final(self).tx() == old(self).tx(),
            r.0@.len() == (if max < old(self).rx().len() {
                max as int
            } else {
                old(self).rx().len() as int
            }),
            r.0@ == old(self).rx().take(r.0@.len() as int),
            final(self).rx() == old(self).rx().skip(r.0@.len() as int),
    {
        (self.rx.read(max), GatewayId)
    }

    /// Buffers `buf`, with the frames that had to go out to make room. Out
    /// of a session, when `buf` does not fit, nothing is buffered and `None`
    /// asks for a handshake first.
    pub fn write(&mut self, buf: &[u8]) -> (r: Option<Vec<Vec<u8>>>)
        requires
            old(self).wf(),
        ensures
            final(self).wf(),
            final(self).phase() == old(self).phase(),
            final(self).mac() == old(self).mac(),
            final(self).key() == old(self).key(),
            final(self).rx() == old(self).rx(),
            match r {
                None => old(self).phase() == SensorBoardLinkPhase::Handshake && buf@.len() + old(self).tx().len() > TX_CAPACITY && final(self).tx() == old(self).tx(),
                Some(frames) => frame_payloads(frames@) + final(self).tx() == old(self).tx()
                    + buf@ && (buf@.len() + old(self).tx().len() <= TX_CAPACITY ==> frames@.len()
                    == 0) && crate::link::swap_frames(
                    frames@,
                    old(self).tx().len() as int,
                    buf@.len() as int,
                ) && match old(self).phase() {
                    SensorBoardLinkPhase::Data(sid) => data_frames(frames@, sid.0, old(self).key()),
                    SensorBoardLinkPhase::Handshake => frames@.len() == 0,
                },
            },
    {
        match self.phase {
            SensorBoardLinkPhase::Data(sid) => Some(
                self.tx_buf.write(buf, sid.0, self.secret.as_slice()),
            ),
            SensorBoardLinkPhase::Handshake => {
                if buf.len() > TX_CAPACITY - self.tx_buf_len() {
                    return None;
                }
                Some(self.tx_buf.write(buf, 0, self.secret.as_slice()))
            },
        }
    }

    fn tx_buf_len(&self) -> (r: usize)
        requires
            self.wf(),
        ensures
            r == self.tx().len(),
            r <= TX_CAPACITY,
    {
        self.tx_buf.len()
    }

    /// The buffered bytes as one data frame for the session; `None` out of
    /// a session, with nothing changed.
    pub fn flush(&mut self) -> (r: Option<Vec<u8>>)
        requires
            old(self).wf(),
        ensures
            final(self).wf(),
            final(self).phase() == old(self).phase(),
            final(self).mac() == old(self).mac(),
            final(self).key() == old(self).key(),
            final(self).rx() == old(self).rx(),
            old(self).tx().len() <= TX_CAPACITY,
            match old(self).phase() {
                SensorBoardLinkPhase::Handshake => r is None && final(self).tx() == old(self).tx(),
                SensorBoardLinkPhase::Data(sid) => r is Some && r->Some_0@ == frame_bytes(
                    LinkPhase::Data,
                    sid.0,
                    old(self).tx(),
                    old(self).key(),
                ) && final(self).tx() == Seq::<u8>::empty(),
            },
    {
        match self.phase {
            SensorBoardLinkPhase::Data(sid) => Some(
                self.tx_buf.take_frame(sid.0, self.secret.as_slice()),
            ),
            SensorBoardLinkPhase::Handshake => None,
        }
    }

    /// Back to the handshake phase, with empty buffers.
    pub fn reset(&mut self)
        requires
            old(self).wf(),
        ensures
            final(self).wf(),
            final(self).phase() == SensorBoardLinkPhase::Handshake,
            final(self).mac() == old(self).mac(),
            final(self).key() == old(self).key(),
            final(self).tx() == Seq::<u8>::empty(),
            final(self).rx() == Seq::<u8>::empty(),
    {
        self.phase = SensorBoardLinkPhase::Handshake;
        self.rx = RxBuffer::new();
        self.tx_buf.clear();
    }
}

} // verus!
