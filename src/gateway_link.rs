use crate::link::{
    frame_bytes, frame_payloads, data_frames, parse_frame, LinkPacket, LinkPhase, RxBuffer,
    SensorBoardId, TxBuffer,
};
use vstd::prelude::*;

verus! {

/// The id the gateway hands out after `id`: one more, modulo 16.
pub open spec fn next_sensor_id(id: u8) -> u8 {
    ((id + 1) % 16) as u8
}

/// The id the gateway holds before any handshake, so that the first sensor
/// board it accepts gets id 0.
pub const INITIAL_SENSOR_ID: u8 = 15;

/// What the gateway link did with a received frame.
pub enum GatewayFrameAction {
    /// The frame was dropped: too short, a bad tag, or another session's id.
    Ignored,
    /// A sensor board asked to join; this frame answers it (echoing its
    /// payload under the newly allocated id) and goes out after the
    /// listen-before-talk delay.
    ReplyHandshake(Vec<u8>),
    /// The frame's payload can now be read.
    Payload,
}

/// The gateway's link layer: authenticates frames, allocates session ids,
/// and frames what the application writes.
pub struct GatewayLinkLayer {
    phase: LinkPhase,
    curr_sensor_id: SensorBoardId,
    secret: Vec<u8>,
    tx_buf: TxBuffer,
    rx: RxBuffer,
}

impl GatewayLinkLayer {
    pub closed spec fn phase(&self) -> LinkPhase {
        self.phase
    }

    /// The id of the current session.
    pub closed spec fn sensor_id(&self) -> u8 {
        self.curr_sensor_id.0
    }

    /// The shared secret frames are signed with.
    pub closed spec fn key(&self) -> Seq<u8> {
        self.secret@
    }

    /// Bytes written and not yet sent.
    pub closed spec fn tx(&self) -> Seq<u8> {
        self.tx_buf.contents()
    }

    /// Received bytes not yet read.
    pub closed spec fn rx(&self) -> Seq<u8> {
        self.rx.pending()
    }

    pub closed spec fn wf(&self) -> bool {
        &&& self.curr_sensor_id.0 < 16
        &&& self.tx_buf.wf()
        &&& self.rx.wf()
    }

    pub fn new(secret: Vec<u8>) -> (r: GatewayLinkLayer)
        ensures
            r.wf(),
            r.phase() == LinkPhase::Handshake,
            r.sensor_id() == INITIAL_SENSOR_ID,
            r.key() == secret@,
            r.tx() == Seq::<u8>::empty(),
            r.rx() == Seq::<u8>::empty(),
    {
        GatewayLinkLayer {
            phase: LinkPhase::Handshake,
            curr_sensor_id: SensorBoardId(INITIAL_SENSOR_ID),
            secret,
            tx_buf: TxBuffer::new(),
            rx: RxBuffer::new(),
        }
    }

    /// Handles one frame from the radio. A handshake allocates the next
    /// session id and is answered; a data frame of the current session
    /// becomes readable; anything else is dropped.
    pub fn on_frame(&mut self, frame: &[u8]) -> (r: GatewayFrameAction)
        requires
            old(self).wf(),
        ensures
            final(self).wf(),
            final(self).phase() == old(self).phase(),
            final(self).key() == old(self).key(),
            final(self).tx() == old(self).tx(),
            match parse_frame(frame@, old(self).key()) {
                None => r is Ignored && final(self).sensor_id() == old(self).sensor_id()
                    && final(self).rx() == old(self).rx(),
                Some((LinkPhase::Handshake, _)) => final(self).sensor_id() == next_sensor_id(
                    old(self).sensor_id(),
                ) && final(self).rx() == old(self).rx() && r is ReplyHandshake
                    && r->ReplyHandshake_0@ == frame_bytes(
                    LinkPhase::Handshake,
                    final(self).sensor_id(),
                    frame@.skip(5),
                    old(self).key(),
                ),
                Some((LinkPhase::Data, id)) => final(self).sensor_id() == old(self).sensor_id() && if id
                    != old(self).sensor_id() {
                    r is Ignored && final(self).rx() == old(self).rx()
                } else {
                    r is Payload && final(self).rx() == frame@.skip(5)
                },
            },
    {
        let (phase, id) = match LinkPacket::read(frame, self.secret.as_slice()) {
            Some(h) => h,
            None => return GatewayFrameAction::Ignored,
        };
        let payload = LinkPacket::get_payload(frame);
        match phase {
            LinkPhase::Handshake => {
                self.curr_sensor_id = SensorBoardId((self.curr_sensor_id.0 + 1) % 16);
                let reply = LinkPacket {
                    phase: LinkPhase::Handshake,
                    id: self.curr_sensor_id.0,
                    payload,
                };
                GatewayFrameAction::ReplyHandshake(reply.write(self.secret.as_slice()))
            },
            LinkPhase::Data => {
                if id != self.curr_sensor_id.0 {
                    return GatewayFrameAction::Ignored;
                }
                self.rx.set(payload);
                GatewayFrameAction::Payload
            },
        }
    }

    /// The number of received bytes not read yet.
    pub fn rx_len(&self) -> (r: usize)
        requires
            self.wf(),
        ensures
            r == self.rx().len(),
    {
        self.rx.len()
    }

    /// Whether the received payload was read to its end, so that the next
    /// frame is needed.
    pub fn needs_frame(&self) -> (r: bool)
        requires
            self.wf(),
        ensures
            r == (self.rx().len() == 0),
    {
        self.rx.is_empty()
    }

    /// Reads up to `max` received bytes, with the id of the session they
    /// came from.
    pub fn read(&mut self, max: usize) -> (r: (Vec<u8>, SensorBoardId))
        requires
            old(self).wf(),
        ensures
            final(self).wf(),
            final(self).phase() == old(self).phase(),
            final(self).sensor_id() == old(self).sensor_id(),
            final(self).key() == old(self).key(),
            final(self).tx() == old(self).tx(),
            r.0@.len() == (if max < old(self).rx().len() {
                max as int
            } else {
                old(self).rx().len() as int
            }),
            r.0@ == old(self).rx().take(r.0@.len() as int),
            final(self).rx() == old(self).rx().skip(r.0@.len() as int),
            r.1.0 == old(self).sensor_id(),
    {
        let bytes = self.rx.read(max);
        (bytes, self.curr_sensor_id)
    }

    /// Buffers `buf` for the current session; returns the frames that had to
    /// go out to make room.
    pub fn write(&mut self, buf: &[u8]) -> (r: Vec<Vec<u8>>)
        requires
            old(self).wf(),
        ensures
            final(self).wf(),
            final(self).phase() == old(self).phase(),
            final(self).sensor_id() == old(self).sensor_id(),
            final(self).key() == old(self).key(),
            final(self).rx() == old(self).rx(),
            data_frames(r@, old(self).sensor_id(), old(self).key()),
            frame_payloads(r@) + final(self).tx() == old(self).tx() + buf@,
            buf@.len() + old(self).tx().len() <= crate::link::TX_CAPACITY ==> r@.len() == 0,
            crate::link::swap_frames(r@, old(self).tx().len() as int, buf@.len() as int),
    {
        self.tx_buf.write(buf, self.curr_sensor_id.0, self.secret.as_slice())
    }

    /// The buffered bytes as one data frame for the current session.
    pub fn flush(&mut self) -> (r: Vec<u8>)
        requires
            old(self).wf(),
        ensures
            final(self).wf(),
            final(self).phase() == old(self).phase(),
            final(self).sensor_id() == old(self).sensor_id(),
            final(self).key() == old(self).key(),
            final(self).rx() == old(self).rx(),
            final(self).tx() == Seq::<u8>::empty(),
            r@ == frame_bytes(LinkPhase::Data, old(self).sensor_id(), old(self).tx(), old(self).key()),
    {
        self.tx_buf.take_frame(self.curr_sensor_id.0, self.secret.as_slice())
    }

    /// Back to the handshake phase, with the initial id and empty buffers.
    pub fn reset(&mut self)
        requires
            old(self).wf(),
        ensures
            final(self).wf(),
            final(self).phase() == LinkPhase::Handshake,
            final(self).sensor_id() == INITIAL_SENSOR_ID,
            final(self).key() == old(self).key(),
            final(self).tx() == Seq::<u8>::empty(),
            final(self).rx() == Seq::<u8>::empty(),
    {
        self.phase = LinkPhase::Handshake;
        self.curr_sensor_id = SensorBoardId(INITIAL_SENSOR_ID);
        self.rx = RxBuffer::new();
        self.tx_buf.clear();
    }
}

/// The id the `n`-th accepted handshake (counting from zero) receives when
/// the gateway starts from its initial id.
pub open spec fn issued_id(n: nat) -> u8
    decreases n,
{
    if n == 0 {
        next_sensor_id(INITIAL_SENSOR_ID)
    } else {
        next_sensor_id(issued_id((n - 1) as nat))
    }
}

/// Session ids are handed out as 0, 1, 2, ..., 15, 0, 1, ...: the `n`-th
/// accepted handshake from the initial state gets id `n mod 16`.
pub proof fn lemma_session_ids_wrap(n: nat)
    ensures
        issued_id(n) == n % 16,
    decreases n,
{
    if n > 0 {
        lemma_session_ids_wrap((n - 1) as nat);
    }
}

} // verus!
