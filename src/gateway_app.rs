use crate::codec::{copy_bytes, DecodeError, Decoder};
use crate::gateway_link::{GatewayFrameAction, GatewayLinkLayer};
use crate::link::{frame_bytes, parse_frame, LinkPhase};
use crate::packet::{
    encode_packet, packet_bytes, packet_tag, parse_packet, parse_points, HandshakeEnd, Packet,
    SensorValuePoint, PROTOCOL_VERSION_MAJOR, PROTOCOL_VERSION_MINOR,
};
use vstd::prelude::*;

verus! {

/// Why a gateway cycle failed.
#[derive(Clone, Copy, Debug, PartialEq, Eq, Structural)]
pub enum GatewayAppLayerError {
    /// The byte stream is malformed.
    Decoding,
    /// A well-formed packet that the current phase does not expect.
    UnexpectedPacket(u8),
    /// A handshake of another major version.
    IncompatibleProtocol(u8, u8),
    /// A deadline passed.
    Timeout,
}

/// Where the gateway's application session stands.
#[derive(Clone, Copy, Debug, PartialEq, Eq, Structural)]
pub enum AppLayerPhase {
    Initial,
    Handshake,
    Uplink,
}

/// What one gateway cycle decided.
pub enum GatewayStep {
    /// The next packet is not complete yet: hand over the next frame.
    NeedInput,
    /// The cycle failed; the loop goes on.
    Failed(GatewayAppLayerError),
    /// A compatible sensor board started a session: after the
    /// listen-before-talk delay, reply with `handshake_reply`.
    HandshakeAccepted,
    /// A batch of values arrived: publish them, wait the settle delay, then
    /// send the acknowledgement frame.
    Batch(Vec<SensorValuePoint>, Vec<u8>),
    /// The sensor board ended the session with `ResetConnection`.
    SessionEnded,
}

/// The gateway's application layer: decodes packets from what the link
/// delivers and answers them.
pub struct GatewayAppLayer {
    link: GatewayLinkLayer,
    offset: usize,
    rx: Vec<u8>,
}

impl GatewayAppLayer {
    /// The link underneath.
    pub closed spec fn link(&self) -> GatewayLinkLayer {
        self.link
    }

    /// Delivered bytes not decoded yet.
    pub closed spec fn pending(&self) -> Seq<u8> {
        self.rx@
    }

    /// The number of bytes decoded so far, wrapping.
    pub closed spec fn offset(&self) -> usize {
        self.offset
    }

    /// Between cycles everything written was flushed.
    pub closed spec fn wf(&self) -> bool {
        &&& self.link.wf()
        &&& self.link.tx().len() == 0
        &&& self.link.rx().len() == 0
    }

    pub fn new(link: GatewayLinkLayer) -> (r: GatewayAppLayer)
        requires
            link.wf(),
            link.tx().len() == 0,
            link.rx().len() == 0,
        ensures
            r.wf(),
            r.link() == link,
            r.pending() == Seq::<u8>::empty(),
            r.offset() == 0,
    {
        GatewayAppLayer { link, offset: 0, rx: Vec::new() }
    }

    /// The number of bytes decoded so far, wrapping.
    pub fn current_offset(&self) -> (r: usize)
        ensures
            r == self.offset(),
    {
        self.offset
    }

    /// Hands a frame from the radio to the link; a payload it accepts is
    /// delivered for decoding.
    pub fn on_frame(&mut self, frame: &[u8]) -> (r: GatewayFrameAction)
        requires
            old(self).wf(),
        ensures
            final(self).wf(),
            final(self).offset() == old(self).offset(),
            final(self).link().sensor_id() == (match r {
                GatewayFrameAction::ReplyHandshake(_) => crate::gateway_link::next_sensor_id(
                    old(self).link().sensor_id(),
                ),
                _ => old(self).link().sensor_id(),
            }),
            final(self).link().key() == old(self).link().key(),
            final(self).link().phase() == old(self).link().phase(),
            match r {
                GatewayFrameAction::Payload => final(self).pending() == old(self).pending()
                    + frame@.skip(5),
                _ => final(self).pending() == old(self).pending(),
            },
            match parse_frame(frame@, old(self).link().key()) {
                None => r is Ignored,
                Some((LinkPhase::Handshake, _)) => r is ReplyHandshake && r->ReplyHandshake_0@
                    == frame_bytes(
                    LinkPhase::Handshake,
                    crate::gateway_link::next_sensor_id(old(self).link().sensor_id()),
                    frame@.skip(5),
                    old(self).link().key(),
                ),
                Some((LinkPhase::Data, id)) => if id != old(self).link().sensor_id() {
                    r is Ignored
                } else {
                    r is Payload
                },
            },
    {
        let r = self.link.on_frame(frame);
        match r {
            GatewayFrameAction::Payload => {
                let n = self.link.rx_len();
                let (mut bytes, _) = self.link.read(n);
                self.rx.append(&mut bytes);
            },
            _ => {},
        }
        r
    }

    /// Emits `p` and flushes: with nothing buffered and a packet that fits
    /// one frame, that is a single data frame holding the packet.
    fn emit_and_flush(&mut self, p: &Packet) -> (r: Vec<u8>)
        requires
            old(self).wf(),
            packet_bytes(*p).len() <= crate::link::TX_CAPACITY,
        ensures
            final(self).wf(),
            final(self).pending() == old(self).pending(),
            final(self).offset() == old(self).offset(),
            final(self).link().sensor_id() == old(self).link().sensor_id(),
            final(self).link().key() == old(self).link().key(),
            final(self).link().phase() == old(self).link().phase(),
            final(self).link().rx() == old(self).link().rx(),
            r@ == frame_bytes(
                LinkPhase::Data,
                old(self).link().sensor_id(),
                packet_bytes(*p),
                old(self).link().key(),
            ),
    {
        let mut bytes: Vec<u8> = Vec::new();
        encode_packet(&mut bytes, p);
        assert(bytes@ =~= packet_bytes(*p));
        let frames = self.link.write(bytes.as_slice());
        assert(frames@.len() == 0);
        assert(crate::link::frame_payloads(frames@) =~= Seq::<u8>::empty());
        assert(self.link.tx() =~= packet_bytes(*p));
        self.link.flush()
    }

    /// The reply to an accepted handshake: a `HandshakeEnd` of this
    /// library's version whose epoch is `now_ms`, in one data frame.
    pub fn handshake_reply(&mut self, now_ms: u64) -> (r: Vec<u8>)
        requires
            old(self).wf(),
        ensures
            final(self).wf(),
            final(self).pending() == old(self).pending(),
            final(self).offset() == old(self).offset(),
            final(self).link().sensor_id() == old(self).link().sensor_id(),
            final(self).link().key() == old(self).link().key(),
            r@ == frame_bytes(
                LinkPhase::Data,
                old(self).link().sensor_id(),
                packet_bytes(
                    Packet::HandshakeEnd(
                        HandshakeEnd {
                            major: PROTOCOL_VERSION_MAJOR,
                            minor: PROTOCOL_VERSION_MINOR,
                            epoch: now_ms,
                        },
                    ),
                ),
                old(self).link().key(),
            ),
    {
        let p = Packet::HandshakeEnd(
            HandshakeEnd { major: PROTOCOL_VERSION_MAJOR, minor: PROTOCOL_VERSION_MINOR, epoch: now_ms },
        );
        proof {
            crate::codec::lemma_u64_round_trip(now_ms, Seq::empty());
            crate::codec::lemma_u32_round_trip(
                crate::codec::uleb(now_ms as nat).len() as u32,
                Seq::empty(),
            );
        }
        self.emit_and_flush(&p)
    }

    /// One cycle: decodes the next packet and decides. A compatible
    /// `HandshakeStart` opens the uplink; in the uplink, a `SensorData`
    /// header and exactly its `count` value points make a batch, answered by
    /// exactly one `Ack`. A `ResetConnection` ends the session, back to the
    /// initial phase. An incomplete packet waits for more input with
    /// nothing consumed; a malformed stream is dropped.
    pub fn comm_cycle(&mut self, phase: &mut AppLayerPhase) -> (r: GatewayStep)
        requires
            old(self).wf(),
        ensures
            final(self).wf(),
            final(self).link().sensor_id() == old(self).link().sensor_id(),
            final(self).link().key() == old(self).link().key(),
            final(self).link().phase() == old(self).link().phase(),
            ({
                let s = old(self).pending();
                let unchanged = final(self).pending() == s && *final(phase) == *old(phase)
                    && final(self).offset() == old(self).offset();
                let dropped = r == GatewayStep::Failed(GatewayAppLayerError::Decoding)
                    && final(self).pending() == Seq::<u8>::empty() && *final(phase) == *old(phase)
                    && final(self).offset() == old(self).offset();
                let advanced = |n: nat|
                    final(self).offset() == vstd::wrapping::usize_specs::wrapping_add(
                        old(self).offset(),
                        n as usize,
                    );
                match parse_packet(s) {
                    Err(DecodeError::EndOfInput) => r is NeedInput && unchanged,
                    Err(DecodeError::Malformed) => dropped,
                    Ok((Packet::HandshakeStart(h), n)) => final(self).pending() == s.skip(n as int)
                        && advanced(n) && if h.major != PROTOCOL_VERSION_MAJOR {
                        r == GatewayStep::Failed(
                            GatewayAppLayerError::IncompatibleProtocol(h.major, h.minor),
                        ) && *final(phase) == AppLayerPhase::Handshake
                    } else {
                        r is HandshakeAccepted && *final(phase) == AppLayerPhase::Uplink
                    },
                    Ok((Packet::SensorData(d), n)) => if *old(phase) == AppLayerPhase::Uplink {
                        match parse_points(s.skip(n as int), d.count as nat) {
                            Err(DecodeError::EndOfInput) => r is NeedInput && unchanged,
                            Err(DecodeError::Malformed) => dropped,
                            Ok((points, m)) => r is Batch && r->Batch_0@ == points
                                && r->Batch_0@.len() == d.count && r->Batch_1@ == frame_bytes(
                                LinkPhase::Data,
                                old(self).link().sensor_id(),
                                packet_bytes(Packet::Ack),
                                old(self).link().key(),
                            ) && final(self).pending() == s.skip((n + m) as int) && advanced(n + m)
                                && *final(phase) == *old(phase),
                        }
                    } else {
                        r == GatewayStep::Failed(GatewayAppLayerError::UnexpectedPacket(3))
                            && final(self).pending() == s.skip(n as int) && advanced(n)
                            && *final(phase) == *old(phase)
                    },
                    Ok((Packet::ResetConnection, n)) => r is SessionEnded && final(self).pending()
                        == s.skip(n as int) && advanced(n) && *final(phase) == AppLayerPhase::Initial,
                    Ok((p, n)) => r == GatewayStep::Failed(
                        GatewayAppLayerError::UnexpectedPacket(packet_tag(p)),
                    ) && final(self).pending() == s.skip(n as int) && advanced(n) && *final(phase)
                        == *old(phase),
                }
            }),
    {
        let ghost s = self.rx@;
        let mut d = Decoder::new(copy_bytes(self.rx.as_slice()));
        let packet = match d.read_packet() {
            Ok(p) => p,
            Err(DecodeError::EndOfInput) => {
                return GatewayStep::NeedInput;
            },
            Err(DecodeError::Malformed) => {
                self.rx = Vec::new();
                return GatewayStep::Failed(GatewayAppLayerError::Decoding);
            },
        };
        match packet {
            Packet::HandshakeStart(h) => {
                self.consume(d);
                if h.major != PROTOCOL_VERSION_MAJOR {
                    *phase = AppLayerPhase::Handshake;
                    GatewayStep::Failed(GatewayAppLayerError::IncompatibleProtocol(h.major, h.minor))
                } else {
                    *phase = AppLayerPhase::Uplink;
                    GatewayStep::HandshakeAccepted
                }
            },
            Packet::SensorData(sd) => {
                if *phase != AppLayerPhase::Uplink {
                    self.consume(d);
                    return GatewayStep::Failed(GatewayAppLayerError::UnexpectedPacket(3));
                }
                let points = match d.read_value_points(sd.count) {
                    Ok(points) => points,
                    Err(DecodeError::EndOfInput) => {
                        return GatewayStep::NeedInput;
                    },
                    Err(DecodeError::Malformed) => {
                        self.rx = Vec::new();
                        return GatewayStep::Failed(GatewayAppLayerError::Decoding);
                    },
                };
                proof {
                    let n = parse_packet(s)->Ok_0.1;
                    let m = parse_points(s.skip(n as int), sd.count as nat)->Ok_0.1;
                    assert(s.skip(n as int).skip(m as int) =~= s.skip((n + m) as int));
                }
                self.consume(d);
                let ack = self.emit_and_flush(&Packet::Ack);
                GatewayStep::Batch(points, ack)
            },
            Packet::HandshakeEnd(_) => {
                self.consume(d);
                GatewayStep::Failed(GatewayAppLayerError::UnexpectedPacket(1))
            },
            Packet::Ack => {
                self.consume(d);
                GatewayStep::Failed(GatewayAppLayerError::UnexpectedPacket(2))
            },
            Packet::ResetConnection => {
                self.consume(d);
                *phase = AppLayerPhase::Initial;
                GatewayStep::SessionEnded
            },
        }
    }

    /// Keeps what `d` has not read as the pending input, and counts what it
    /// read.
    fn consume(&mut self, d: Decoder)
        requires
            d.wf(),
        ensures
            final(self).pending() == d.pending(),
            final(self).link() == old(self).link(),
            final(self).offset() == vstd::wrapping::usize_specs::wrapping_add(
                old(self).offset(),
                d.offset() as usize,
            ),
    {
        let n = d.current_offset();
        self.offset = self.offset.wrapping_add(n);
        self.rx = d.into_pending();
    }
}

} // verus!
