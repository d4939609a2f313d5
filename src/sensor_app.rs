use crate::codec::{copy_bytes, DecodeError, Decoder};
use crate::link::{data_frames, frame_payloads, parse_frame, LinkPhase, SensorBoardId, TX_CAPACITY};
use crate::packet::{
    encode_packet, encode_value_point, packet_bytes, packet_tag, parse_packet, value_point_bytes,
    HandshakeStart, Packet, SensorData, SensorValue, SensorValuePoint, PROTOCOL_VERSION_MAJOR,
    PROTOCOL_VERSION_MINOR,
};
use crate::value_queue::ValueQueue;
use crate::sensor_link::{SensorBoardLinkLayer, SensorBoardLinkPhase, SensorFrameAction};
use vstd::prelude::*;

verus! {

/// Why a sensor board cycle failed.
#[derive(Clone, Copy, Debug, PartialEq, Eq, Structural)]
pub enum SensorBoardAppLayerError {
    /// The byte stream is malformed.
    Decoding,
    /// A well-formed packet that the current phase does not expect.
    UnexpectedPacket(u8),
    /// The gateway speaks another version.
    IncompatibleProtocol(u8, u8),
    /// The gateway did not answer in time.
    Timeout,
}

/// Where the sensor board's application session stands: handshaking, or
/// sending values with the clock offsets the handshake gave.
#[derive(Clone, Copy, Debug, PartialEq, Eq, Structural)]
pub enum SensorAppPhase {
    Handshake,
    Uplink { sensor_epoch_us: u64, diff: i64 },
}

/// How long the sensor board waits for a reply, in milliseconds.
pub const REPLY_TIMEOUT_MS: u64 = 5000;

/// Seconds the sensor board sleeps between uplink batches.
pub const VALUES_SEND_INTERVAL: u64 = 5;

/// Seconds the sensor board sleeps between sampling rounds.
pub const VALUES_MEASURE_INTERVAL: u64 = 10;

/// The wire form of value points that share one time offset.
pub open spec fn points_bytes(values: Seq<SensorValue>, time_offset: i64) -> Seq<u8>
    decreases values.len(),
{
    if values.len() == 0 {
        Seq::empty()
    } else {
        points_bytes(values.drop_last(), time_offset) + value_point_bytes(
            SensorValuePoint { value: values.last(), time_offset },
        )
    }
}

/// What a `HandshakeEnd` means to the sensor board: the gateway's epoch when
/// it speaks this major version (a newer minor is accepted), an error
/// otherwise.
pub open spec fn handshake_end_outcome(p: Packet) -> Result<u64, SensorBoardAppLayerError> {
    match p {
        Packet::HandshakeEnd(h) => if h.major != PROTOCOL_VERSION_MAJOR {
            Err(SensorBoardAppLayerError::IncompatibleProtocol(h.major, h.minor))
        } else {
            Ok(h.epoch)
        },
        _ => Err(SensorBoardAppLayerError::UnexpectedPacket(packet_tag(p))),
    }
}

/// What an uplink cycle sends.
pub enum UplinkBatch {
    /// No value was queued: nothing to send, no acknowledgement to wait for.
    Idle,
    /// The link is not in a session; nothing was taken from the queue.
    NotConnected,
    /// These frames carry the batch; an `Ack` is due after them.
    Sent(Vec<Vec<u8>>),
}

/// Interprets the packet received after a `HandshakeStart`.
pub fn handshake_end_epoch(p: &Packet) -> (r: Result<u64, SensorBoardAppLayerError>)
    ensures
        r == handshake_end_outcome(*p),
{
    match p {
        Packet::HandshakeEnd(h) => {
            if h.major != PROTOCOL_VERSION_MAJOR {
                Err(SensorBoardAppLayerError::IncompatibleProtocol(h.major, h.minor))
            } else {
                Ok(h.epoch)
            }
        },
        _ => Err(SensorBoardAppLayerError::UnexpectedPacket(p.id())),
    }
}

/// The uplink phase that a reply to `HandshakeStart` opens at `now_us` on the
/// board's clock: the session starts now, offset from the gateway's epoch.
pub fn enter_uplink(p: &Packet, now_us: u64) -> (r: Result<SensorAppPhase, SensorBoardAppLayerError>)
    ensures
        match handshake_end_outcome(*p) {
            Ok(epoch) => r == Ok::<SensorAppPhase, SensorBoardAppLayerError>(
                SensorAppPhase::Uplink {
                    sensor_epoch_us: now_us,
                    diff: crate::codec::wrap_i64(now_us - epoch * 1000) as i64,
                },
            ),
            Err(e) => r == Err::<SensorAppPhase, SensorBoardAppLayerError>(e),
        },
{
    match handshake_end_epoch(p) {
        Ok(epoch) => Ok(SensorAppPhase::Uplink { sensor_epoch_us: now_us, diff: epoch_diff(now_us, epoch) }),
        Err(e) => Err(e),
    }
}

/// Interprets the packet received after a batch: only an `Ack` is expected.
pub fn check_ack(p: &Packet) -> (r: Result<(), SensorBoardAppLayerError>)
    ensures
        r == (if *p == Packet::Ack {
            Ok(())
        } else {
            Err(SensorBoardAppLayerError::UnexpectedPacket(packet_tag(*p)))
        }),
{
    match p {
        Packet::Ack => Ok(()),
        _ => Err(SensorBoardAppLayerError::UnexpectedPacket(p.id())),
    }
}

/// `x` divided by `d`, rounding towards zero.
pub open spec fn div_toward_zero(x: int, d: int) -> int {
    if x >= 0 {
        x / d
    } else {
        -((-x) / d)
    }
}

/// The offset between the sensor board's clock and the gateway's, in
/// microseconds: the board's time at the handshake minus the gateway's
/// epoch, wrapped into `i64`.
pub fn epoch_diff(now_us: u64, gateway_epoch_ms: u64) -> (r: i64)
    ensures
        r as int == crate::codec::wrap_i64(now_us - gateway_epoch_ms * 1000),
{
    let x: i128 = now_us as i128 - gateway_epoch_ms as i128 * 1000;
    let t: i128 = x + 0x8000_0000_0000_0000 + 0x1_0000_0000_0000_0000 * 1000;
    let q: i128 = t / 0x1_0000_0000_0000_0000;
    let m: i128 = t % 0x1_0000_0000_0000_0000;
    proof {
        vstd::arithmetic::div_mod::lemma_fundamental_div_mod_converse(
            x + 0x8000_0000_0000_0000,
            0x1_0000_0000_0000_0000,
            q - 1000,
            m as int,
        );
    }
    (m - 0x8000_0000_0000_0000) as i64
}

/// The time offset of a value, in whole seconds relative to the gateway's
/// epoch: microseconds since the session started, less the clock offset,
/// divided by a million and rounded towards zero.
pub fn time_offset_secs(elapsed_us: u64, diff: i64) -> (r: i64)
    ensures
        r as int == div_toward_zero(elapsed_us - diff, 1_000_000),
{
    let x: i128 = elapsed_us as i128 - diff as i128;
    if x >= 0 {
        (x / 1_000_000) as i64
    } else {
        -((-x) / 1_000_000) as i64
    }
}

/// A sensor board's application layer: handshakes with the gateway, sends
/// batches of values and waits for their acknowledgement.
pub struct SensorBoardAppLayer {
    link: SensorBoardLinkLayer,
    offset: usize,
    rx: Vec<u8>,
}

impl SensorBoardAppLayer {
    /// The link underneath.
    pub closed spec fn link(&self) -> SensorBoardLinkLayer {
        self.link
    }

    /// Delivered bytes not decoded yet.
    pub closed spec fn pending(&self) -> Seq<u8> {
        self.rx@
    }

    /// The number of bytes decoded so far, wrapping.
    pub closed spec fn offset(&self) -> usize {
        self.offset
    }

    /// Between cycles everything written was flushed and everything the
    /// link received was delivered.
    pub closed spec fn wf(&self) -> bool {
        &&& self.link.wf()
        &&& self.link.tx().len() == 0
        &&& self.link.rx().len() == 0
    }

    pub fn new(link: SensorBoardLinkLayer) -> (r: SensorBoardAppLayer)
        requires
            link.wf(),
            link.tx().len() == 0,
            link.rx().len() == 0,
        ensures
            r.wf(),
            r.link() == link,
            r.pending() == Seq::<u8>::empty(),
            r.offset() == 0,
    {
        SensorBoardAppLayer { link, offset: 0, rx: Vec::new() }
    }

    /// Drops the session: the link goes back to its handshake, and the
    /// decoding state starts over.
    pub fn reset(&mut self)
        requires
            old(self).wf(),
        ensures
            final(self).wf(),
            final(self).link().phase() == SensorBoardLinkPhase::Handshake,
            final(self).link().key() == old(self).link().key(),
            final(self).link().mac() == old(self).link().mac(),
            final(self).pending() == Seq::<u8>::empty(),
            final(self).offset() == 0,
    {
        self.link.reset();
        self.offset = 0;
        self.rx = Vec::new();
    }

    /// The link's handshake frame.
    pub fn link_handshake_frame(&self) -> (r: Vec<u8>)
        ensures
            r@ == crate::link::frame_bytes(
                crate::link::LinkPhase::Handshake,
                0,
                self.link().mac(),
                self.link().key(),
            ),
    {
        self.link.handshake_frame()
    }

    /// Hands the link a frame received while it waits for its handshake
    /// reply.
    pub fn on_link_handshake_reply(&mut self, frame: &[u8]) -> (r: crate::sensor_link::ConnectOutcome)
        requires
            old(self).wf(),
        ensures
            final(self).wf(),
            final(self).pending() == old(self).pending(),
            final(self).offset() == old(self).offset(),
            final(self).link().key() == old(self).link().key(),
            final(self).link().mac() == old(self).link().mac(),
            match r {
                crate::sensor_link::ConnectOutcome::Connected(id) => final(self).link().phase()
                    == SensorBoardLinkPhase::Data(id),
                crate::sensor_link::ConnectOutcome::Rejected => final(self).link().phase()
                    == SensorBoardLinkPhase::Handshake,
                crate::sensor_link::ConnectOutcome::Ignored => final(self).link().phase() == old(self).link().phase(),
            },
            match parse_frame(frame@, old(self).link().key()) {
                None => r is Ignored,
                Some((phase, id)) => if phase == LinkPhase::Handshake && frame@.skip(5) == old(self).link().mac() {
                    r == crate::sensor_link::ConnectOutcome::Connected(SensorBoardId(id))
                } else {
                    r is Rejected
                },
            },
    {
        self.link.on_handshake_reply(frame)
    }

    /// Hands a frame from the radio to the link; a payload it accepts is
    /// delivered for decoding.
    pub fn on_frame(&mut self, frame: &[u8]) -> (r: SensorFrameAction)
        requires
            old(self).wf(),
        ensures
            final(self).wf(),
            final(self).offset() == old(self).offset(),
            final(self).link().key() == old(self).link().key(),
            final(self).link().mac() == old(self).link().mac(),
            match r {
                SensorFrameAction::Payload => final(self).pending() == old(self).pending()
                    + frame@.skip(5) && final(self).link().phase() == old(self).link().phase(),
                SensorFrameAction::Ignored => final(self).pending() == old(self).pending()
                    && final(self).link().phase() == old(self).link().phase(),
                SensorFrameAction::Reconnect => final(self).pending() == old(self).pending()
                    && final(self).link().phase() == SensorBoardLinkPhase::Handshake,
            },
            match old(self).link().phase() {
                SensorBoardLinkPhase::Handshake => r is Reconnect,
                SensorBoardLinkPhase::Data(sid) => match parse_frame(frame@, old(self).link().key()) {
                    None => r is Ignored,
                    Some((phase, id)) => if id != sid.0 {
                        r is Ignored
                    } else if phase != LinkPhase::Data {
                        r is Reconnect
                    } else {
                        r is Payload
                    },
                },
            },
    {
        let r = self.link.on_frame(frame);
        match r {
            SensorFrameAction::Payload => {
                let n = self.link.rx_len();
                let (mut bytes, _) = self.link.read(n);
                self.rx.append(&mut bytes);
            },
            _ => {},
        }
        r
    }

    /// Sends `bytes` and flushes: the data frames that carry them, in
    /// order, or `None` (nothing sent) when the link is not in a session.
    fn send(&mut self, bytes: &[u8]) -> (r: Option<Vec<Vec<u8>>>)
        requires
            old(self).wf(),
        ensures
            final(self).wf(),
            final(self).pending() == old(self).pending(),
            final(self).offset() == old(self).offset(),
            final(self).link().key() == old(self).link().key(),
            final(self).link().mac() == old(self).link().mac(),
            final(self).link().phase() == old(self).link().phase(),
            match old(self).link().phase() {
                SensorBoardLinkPhase::Handshake => r is None,
                SensorBoardLinkPhase::Data(sid) => r is Some && frame_payloads(r->Some_0@) == bytes@
                    && data_frames(r->Some_0@, sid.0, old(self).link().key()),
            },
    {
        let sid = match self.link.connected_id() {
            Some(sid) => sid,
            None => return None,
        };
        let mut frames = match self.link.write(bytes) {
            Some(f) => f,
            None => return None,
        };
        let ghost before = frames@;
        let ghost tx1 = self.link.tx();
        let last = match self.link.flush() {
            Some(f) => f,
            None => return None,
        };
        proof {
            assert(old(self).link().tx() + bytes@ =~= bytes@);
            crate::link::lemma_push_data_frame(before, last, tx1, sid.0, old(self).link().key());
        }
        frames.push(last);
        Some(frames)
    }

    /// Starts the application handshake: a `HandshakeStart` of this
    /// library's version with an empty tail, flushed. `None` (nothing sent)
    /// when the link is not in a session.
    pub fn handshake_start(&mut self) -> (r: Option<Vec<Vec<u8>>>)
        requires
            old(self).wf(),
        ensures
            final(self).wf(),
            final(self).pending() == old(self).pending(),
            final(self).link().key() == old(self).link().key(),
            final(self).link().mac() == old(self).link().mac(),
            final(self).link().phase() == old(self).link().phase(),
            match old(self).link().phase() {
                SensorBoardLinkPhase::Handshake => r is None,
                SensorBoardLinkPhase::Data(sid) => r is Some && frame_payloads(r->Some_0@)
                    == packet_bytes(
                    Packet::HandshakeStart(
                        HandshakeStart {
                            major: PROTOCOL_VERSION_MAJOR,
                            minor: PROTOCOL_VERSION_MINOR,
                        },
                    ),
                ) && data_frames(r->Some_0@, sid.0, old(self).link().key()),
            },
    {
        let p = Packet::HandshakeStart(
            HandshakeStart { major: PROTOCOL_VERSION_MAJOR, minor: PROTOCOL_VERSION_MINOR },
        );
        let mut bytes: Vec<u8> = Vec::new();
        encode_packet(&mut bytes, &p);
        assert(bytes@ =~= packet_bytes(p));
        self.send(bytes.as_slice())
    }

    /// Sends a batch: a `SensorData` header with the number of values, then
    /// each value with `time_offset`, flushed. `None` (nothing sent) when
    /// the link is not in a session.
    pub fn send_values(&mut self, values: &Vec<SensorValue>, time_offset: i64) -> (r: Option<
        Vec<Vec<u8>>,
    >)
        requires
            old(self).wf(),
            values@.len() <= 255,
        ensures
            final(self).wf(),
            final(self).pending() == old(self).pending(),
            final(self).link().key() == old(self).link().key(),
            final(self).link().mac() == old(self).link().mac(),
            final(self).link().phase() == old(self).link().phase(),
            match old(self).link().phase() {
                SensorBoardLinkPhase::Handshake => r is None,
                SensorBoardLinkPhase::Data(sid) => r is Some && frame_payloads(r->Some_0@)
                    == packet_bytes(Packet::SensorData(SensorData { count: values@.len() as u8 }))
                    + points_bytes(values@, time_offset) && data_frames(
                    r->Some_0@,
                    sid.0,
                    old(self).link().key(),
                ),
            },
    {
        let mut bytes: Vec<u8> = Vec::new();
        let header = Packet::SensorData(SensorData { count: values.len() as u8 });
        encode_packet(&mut bytes, &header);
        assert(bytes@ =~= packet_bytes(header) + points_bytes(values@.take(0), time_offset));
        let mut i: usize = 0;
        while i < values.len()
            invariant
                i <= values.len(),
                bytes@ == packet_bytes(header) + points_bytes(values@.take(i as int), time_offset),
            decreases values.len() - i,
        {
            let point = SensorValuePoint { value: values[i], time_offset };
            encode_value_point(&mut bytes, &point);
            proof {
                let t = values@.take(i + 1);
                assert(t.drop_last() =~= values@.take(i as int));
                assert(t.last() == values@[i as int]);
            }
            i = i + 1;
        }
        assert(values@.take(values.len() as int) =~= values@);
        self.send(bytes.as_slice())
    }

    /// Decodes the next packet from the delivered bytes: `Ok(None)` when it
    /// is not complete yet (nothing consumed); a malformed stream is dropped.
    pub fn receive(&mut self) -> (r: Result<Option<Packet>, SensorBoardAppLayerError>)
        requires
            old(self).wf(),
        ensures
            final(self).wf(),
            final(self).link() == old(self).link(),
            match parse_packet(old(self).pending()) {
                Err(DecodeError::EndOfInput) => r == Ok::<Option<Packet>, SensorBoardAppLayerError>(
                    None,
                ) && final(self).pending() == old(self).pending() && final(self).offset() == old(self).offset(),
                Err(DecodeError::Malformed) => r == Err::<Option<Packet>, SensorBoardAppLayerError>(
                    SensorBoardAppLayerError::Decoding,
                ) && final(self).pending() == Seq::<u8>::empty(),
                Ok((p, n)) => r == Ok::<Option<Packet>, SensorBoardAppLayerError>(Some(p)) && final(self).pending() == old(self).pending().skip(n as int) && final(self).offset()
                    == vstd::wrapping::usize_specs::wrapping_add(old(self).offset(), n as usize),
            },
    {
        let mut d = Decoder::new(copy_bytes(self.rx.as_slice()));
        match d.read_packet() {
            Ok(p) => {
                let n = d.current_offset();
                self.offset = self.offset.wrapping_add(n);
                self.rx = d.into_pending();
                Ok(Some(p))
            },
            Err(DecodeError::EndOfInput) => Ok(None),
            Err(DecodeError::Malformed) => {
                self.rx = Vec::new();
                Err(SensorBoardAppLayerError::Decoding)
            },
        }
    }

    /// What the loop does after a failed cycle: a timeout drops the session
    /// and goes back to the handshake; any other error leaves both as they
    /// are, so that the cycle is tried again.
    pub fn on_error(&mut self, phase: &mut SensorAppPhase, e: SensorBoardAppLayerError)
        requires
            old(self).wf(),
        ensures
            final(self).wf(),
            final(self).link().key() == old(self).link().key(),
            final(self).link().mac() == old(self).link().mac(),
            e == SensorBoardAppLayerError::Timeout ==> *final(phase) == SensorAppPhase::Handshake
                && final(self).link().phase() == SensorBoardLinkPhase::Handshake && final(self).pending() == Seq::<u8>::empty() && final(self).offset() == 0,
            e != SensorBoardAppLayerError::Timeout ==> *final(phase) == *old(phase) && *final(self)
                == *old(self),
    {
        if e == SensorBoardAppLayerError::Timeout {
            self.reset();
            *phase = SensorAppPhase::Handshake;
        }
    }

    /// One uplink cycle: takes every queued value and sends them as one
    /// batch, stamped with the time offset of `elapsed_us` microseconds into
    /// the session under clock offset `diff`.
    pub fn uplink_batch(&mut self, queue: &mut ValueQueue, elapsed_us: u64, diff: i64) -> (r:
        UplinkBatch)
        requires
            old(self).wf(),
            old(queue).wf(),
        ensures
            final(self).wf(),
            final(queue).wf(),
            final(self).pending() == old(self).pending(),
            final(self).link().key() == old(self).link().key(),
            final(self).link().mac() == old(self).link().mac(),
            final(self).link().phase() == old(self).link().phase(),
            match old(self).link().phase() {
                SensorBoardLinkPhase::Handshake => r is NotConnected && final(queue).values() == old(queue).values(),
                SensorBoardLinkPhase::Data(sid) => final(queue).values() == Seq::<
                    SensorValue,
                >::empty() && if old(queue).values().len() == 0 {
                    r is Idle
                } else {
                    r is Sent && frame_payloads(r->Sent_0@) == packet_bytes(
                        Packet::SensorData(SensorData { count: old(queue).values().len() as u8 }),
                    ) + points_bytes(
                        old(queue).values(),
                        div_toward_zero(elapsed_us - diff, 1_000_000) as i64,
                    ) && data_frames(r->Sent_0@, sid.0, old(self).link().key())
                },
            },
    {
        if self.link.connected_id().is_none() {
            return UplinkBatch::NotConnected;
        }
        let values = queue.drain();
        if values.len() == 0 {
            return UplinkBatch::Idle;
        }
        let time_offset = time_offset_secs(elapsed_us, diff);
        match self.send_values(&values, time_offset) {
            Some(frames) => UplinkBatch::Sent(frames),
            None => UplinkBatch::NotConnected,
        }
    }
}

} // verus!
