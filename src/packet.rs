use crate::codec::{
    lemma_f32_bits_round_trip, lemma_i64_round_trip, lemma_u32_round_trip, lemma_u64_round_trip,
    uleb_encode_u64, emit_f32_bits, emit_i64, emit_u32, emit_u64, emit_u8, le_bytes, le_u32, parse_i64, parse_u32,
    parse_u64, sleb, uleb, DecodeError, Decoder,
};
use vstd::prelude::*;

verus! {

/// Payload of a `HandshakeStart` packet.
#[derive(Clone, Copy, Debug, PartialEq, Eq, Structural)]
pub struct HandshakeStart {
    pub major: u8,
    pub minor: u8,
}

/// Payload of a `HandshakeEnd` packet.
#[derive(Clone, Copy, Debug, PartialEq, Eq, Structural)]
pub struct HandshakeEnd {
    pub major: u8,
    pub minor: u8,
    /// Milliseconds on the gateway's monotonic clock when it replied.
    pub epoch: u64,
}

/// Header of a `SensorData` packet; the value points follow it on the wire.
#[derive(Clone, Copy, Debug, PartialEq, Eq, Structural)]
pub struct SensorData {
    /// The number of value points that follow.
    pub count: u8,
}

/// An application packet; its tag is one byte on the wire.
#[derive(Clone, Copy, Debug, PartialEq, Eq, Structural)]
pub enum Packet {
    HandshakeStart(HandshakeStart),
    HandshakeEnd(HandshakeEnd),
    Ack,
    SensorData(SensorData),
    ResetConnection,
}

/// A measured value. Readings hold the IEEE-754 bit pattern of an `f32`.
#[derive(Clone, Copy, Debug, PartialEq, Eq, Structural)]
pub enum SensorValue {
    Temperature(u32),
    Pressure(u32),
    Altitude(u32),
    AirQuality(u32),
    /// A kind this side does not know; its payload was skipped.
    Unknown { id: u32, value_len: u32 },
}

/// A value with its time, in seconds relative to the session epoch.
#[derive(Clone, Copy, Debug, PartialEq, Eq, Structural)]
pub struct SensorValuePoint {
    pub value: SensorValue,
    pub time_offset: i64,
}

/// The layout every handshake packet shares, whatever its version: the
/// versions, then a length-prefixed tail.
pub struct HandshakeGeneric {
    pub major: u8,
    pub minor: u8,
    pub tail: Vec<u8>,
}

impl HandshakeGeneric {
    /// The wire form: `major`, `minor`, the tail's length, the tail.
    pub open spec fn bytes(&self) -> Seq<u8> {
        seq![self.major, self.minor] + uleb(self.tail@.len()) + self.tail@
    }

    /// Appends the wire form.
    pub fn encode(&self, out: &mut Vec<u8>)
        requires
            self.tail@.len() <= 0xFFFF_FFFF,
        ensures
            final(out)@ == old(out)@ + self.bytes(),
    {
        let ghost start = out@;
        emit_u8(out, self.major);
        emit_u8(out, self.minor);
        emit_u32(out, self.tail.len() as u32);
        let mut i: usize = 0;
        let ghost head = out@;
        while i < self.tail.len()
            invariant
                out@ == head + self.tail@.take(i as int),
                i <= self.tail.len(),
            decreases self.tail.len() - i,
        {
            out.push(self.tail[i]);
            assert(self.tail@.take(i + 1) =~= self.tail@.take(i as int).push(self.tail@[i as int]));
            i = i + 1;
        }
        assert(self.tail@.take(self.tail.len() as int) =~= self.tail@);
        assert(out@ =~= start + self.bytes());
    }
}

/// The protocol generation this library speaks.
pub const PROTOCOL_VERSION_MAJOR: u8 = 1;

pub const PROTOCOL_VERSION_MINOR: u8 = 0;

/// The wire tag of each packet kind.
pub open spec fn packet_tag(p: Packet) -> u8 {
    match p {
        Packet::HandshakeStart(_) => 0,
        Packet::HandshakeEnd(_) => 1,
        Packet::Ack => 2,
        Packet::SensorData(_) => 3,
        Packet::ResetConnection => 4,
    }
}

/// The wire kind of each value; an unknown value keeps the kind it came with.
pub open spec fn value_kind(v: SensorValue) -> u32 {
    match v {
        SensorValue::Temperature(_) => 0,
        SensorValue::Pressure(_) => 1,
        SensorValue::Altitude(_) => 2,
        SensorValue::AirQuality(_) => 3,
        SensorValue::Unknown { id, .. } => id,
    }
}

/// The known value of kind `kind` (0 to 3) holding `bits`.
pub open spec fn known_value(kind: u32, bits: u32) -> SensorValue {
    if kind == 0 {
        SensorValue::Temperature(bits)
    } else if kind == 1 {
        SensorValue::Pressure(bits)
    } else if kind == 2 {
        SensorValue::Altitude(bits)
    } else {
        SensorValue::AirQuality(bits)
    }
}

/// What follows `major` and `minor` in a `HandshakeEnd`: the tail length and
/// the tail, which holds the epoch only for major version 1.
pub open spec fn handshake_end_tail(h: HandshakeEnd) -> Seq<u8> {
    if h.major == 1 {
        uleb(uleb(h.epoch as nat).len()) + uleb(h.epoch as nat)
    } else {
        uleb(0)
    }
}

/// The wire form of a packet.
pub open spec fn packet_bytes(p: Packet) -> Seq<u8> {
    match p {
        Packet::HandshakeStart(h) => seq![0u8, h.major, h.minor] + uleb(0),
        Packet::HandshakeEnd(h) => seq![1u8, h.major, h.minor] + handshake_end_tail(h),
        Packet::Ack => seq![2u8],
        Packet::SensorData(d) => seq![3u8, d.count],
        Packet::ResetConnection => seq![4u8],
    }
}

/// The wire form of a value: kind, payload length, payload. An unknown value
/// is written without its payload.
pub open spec fn value_bytes(v: SensorValue) -> Seq<u8> {
    match v {
        SensorValue::Temperature(b) => uleb(0) + uleb(4) + le_bytes(b),
        SensorValue::Pressure(b) => uleb(1) + uleb(4) + le_bytes(b),
        SensorValue::Altitude(b) => uleb(2) + uleb(4) + le_bytes(b),
        SensorValue::AirQuality(b) => uleb(3) + uleb(4) + le_bytes(b),
        SensorValue::Unknown { id, value_len } => uleb(id as nat) + uleb(value_len as nat),
    }
}

/// The wire form of a value point: time offset, then value.
pub open spec fn value_point_bytes(p: SensorValuePoint) -> Seq<u8> {
    sleb(p.time_offset as int) + value_bytes(p.value)
}

/// Reads a `HandshakeStart` body: versions, then a tail that is skipped.
pub open spec fn parse_handshake_start(s: Seq<u8>) -> Result<(HandshakeStart, nat), DecodeError> {
    if s.len() < 2 {
        Err(DecodeError::EndOfInput)
    } else {
        match parse_u32(s.skip(2)) {
            Err(e) => Err(e),
            Ok((t, n)) => if s.len() < 2 + n + t {
                Err(DecodeError::EndOfInput)
            } else {
                Ok((HandshakeStart { major: s[0], minor: s[1] }, (2 + n + t) as nat))
            },
        }
    }
}

/// Reads a `HandshakeEnd` body: versions, then a tail that starts with the
/// epoch for major version 1; what the tail holds beyond it is skipped.
pub open spec fn parse_handshake_end(s: Seq<u8>) -> Result<(HandshakeEnd, nat), DecodeError> {
    if s.len() < 2 {
        Err(DecodeError::EndOfInput)
    } else {
        match parse_u32(s.skip(2)) {
            Err(e) => Err(e),
            Ok((t, n)) => if s[0] == 1 {
                match parse_u64(s.skip(2 + n as int)) {
                    Err(e) => Err(e),
                    Ok((epoch, m)) => if m > t {
                        Err(DecodeError::Malformed)
                    } else if s.len() < 2 + n + t {
                        Err(DecodeError::EndOfInput)
                    } else {
                        Ok((HandshakeEnd { major: s[0], minor: s[1], epoch }, (2 + n + t) as nat))
                    },
                }
            } else if s.len() < 2 + n + t {
                Err(DecodeError::EndOfInput)
            } else {
                Ok((HandshakeEnd { major: s[0], minor: s[1], epoch: 0 }, (2 + n + t) as nat))
            },
        }
    }
}

/// Reads a packet: its tag, then the body that the tag calls for.
pub open spec fn parse_packet(s: Seq<u8>) -> Result<(Packet, nat), DecodeError> {
    if s.len() == 0 {
        Err(DecodeError::EndOfInput)
    } else if s[0] == 0 {
        match parse_handshake_start(s.skip(1)) {
            Ok((h, n)) => Ok((Packet::HandshakeStart(h), n + 1)),
            Err(e) => Err(e),
        }
    } else if s[0] == 1 {
        match parse_handshake_end(s.skip(1)) {
            Ok((h, n)) => Ok((Packet::HandshakeEnd(h), n + 1)),
            Err(e) => Err(e),
        }
    } else if s[0] == 2 {
        Ok((Packet::Ack, 1))
    } else if s[0] == 3 {
        if s.len() < 2 {
            Err(DecodeError::EndOfInput)
        } else {
            Ok((Packet::SensorData(SensorData { count: s[1] }), 2))
        }
    } else if s[0] == 4 {
        Ok((Packet::ResetConnection, 1))
    } else {
        Err(DecodeError::Malformed)
    }
}

/// Reads the payload of a value of kind `kind` whose declared length is
/// `len`: a known kind reads four bytes and skips the rest of the length; an
/// unknown kind skips it all.
pub open spec fn parse_value_body(s: Seq<u8>, kind: u32, len: u32) -> Result<
    (SensorValue, nat),
    DecodeError,
> {
    if kind <= 3 {
        if s.len() < 4 {
            Err(DecodeError::EndOfInput)
        } else if len < 4 {
            Err(DecodeError::Malformed)
        } else if s.len() < len {
            Err(DecodeError::EndOfInput)
        } else {
            Ok((known_value(kind, le_u32(s)), len as nat))
        }
    } else if s.len() < len {
        Err(DecodeError::EndOfInput)
    } else {
        Ok((SensorValue::Unknown { id: kind, value_len: len }, len as nat))
    }
}

/// Reads a value: kind and payload length, then the payload.
pub open spec fn parse_value(s: Seq<u8>) -> Result<(SensorValue, nat), DecodeError> {
    match parse_u32(s) {
        Err(e) => Err(e),
        Ok((kind, n1)) => match parse_u32(s.skip(n1 as int)) {
            Err(e) => Err(e),
            Ok((len, n2)) => match parse_value_body(s.skip((n1 + n2) as int), kind, len) {
                Err(e) => Err(e),
                Ok((v, m)) => Ok((v, n1 + n2 + m)),
            },
        },
    }
}

/// Reads a value point: time offset, then value.
#[verifier::opaque]
pub open spec fn parse_value_point(s: Seq<u8>) -> Result<(SensorValuePoint, nat), DecodeError> {
    match parse_i64(s) {
        Err(e) => Err(e),
        Ok((t, n)) => match parse_value(s.skip(n as int)) {
            Err(e) => Err(e),
            Ok((v, m)) => Ok((SensorValuePoint { value: v, time_offset: t }, n + m)),
        },
    }
}

/// Reads `n` value points one after the other.
pub open spec fn parse_points(s: Seq<u8>, n: nat) -> Result<(Seq<SensorValuePoint>, nat), DecodeError>
    decreases n,
{
    if n == 0 {
        Ok((Seq::empty(), 0))
    } else {
        match parse_points(s, (n - 1) as nat) {
            Err(e) => Err(e),
            Ok((ps, m)) => match parse_value_point(s.skip(m as int)) {
                Err(e) => Err(e),
                Ok((p, k)) => Ok((ps.push(p), m + k)),
            },
        }
    }
}

/// Once reading points fails, reading more of them fails the same way.
proof fn lemma_points_error_persists(s: Seq<u8>, j: nat, n: nat)
    requires
        j <= n,
        parse_points(s, j) is Err,
    ensures
        parse_points(s, n) == parse_points(s, j),
    decreases n - j,
{
    if j < n {
        lemma_points_error_persists(s, j, (n - 1) as nat);
    }
}

impl Packet {
    /// The packet's tag on the wire.
    pub fn id(&self) -> (r: u8)
        ensures
            r == packet_tag(*self),
    {
        match self {
            Packet::HandshakeStart(_) => 0,
            Packet::HandshakeEnd(_) => 1,
            Packet::Ack => 2,
            Packet::SensorData(_) => 3,
            Packet::ResetConnection => 4,
        }
    }
}

impl SensorValue {
    /// The value's kind: 0 to 3 for the known kinds, `u32::MAX` for an
    /// unknown one.
    pub fn id(&self) -> (r: u32)
        ensures
            r == (match *self {
                SensorValue::Unknown { .. } => 0xFFFF_FFFFu32,
                _ => value_kind(*self),
            }),
    {
        match self {
            SensorValue::Temperature(_) => 0,
            SensorValue::Pressure(_) => 1,
            SensorValue::Altitude(_) => 2,
            SensorValue::AirQuality(_) => 3,
            SensorValue::Unknown { .. } => 0xFFFF_FFFF,
        }
    }
}


/// Appends the wire form of `p`.
pub fn encode_packet(out: &mut Vec<u8>, p: &Packet)
    ensures
        final(out)@ == old(out)@ + packet_bytes(*p),
{
    let ghost start = out@;
    match p {
        Packet::HandshakeStart(h) => {
            emit_u8(out, 0);
            emit_u8(out, h.major);
            emit_u8(out, h.minor);
            emit_u32(out, 0);
        },
        Packet::HandshakeEnd(h) => {
            emit_u8(out, 1);
            emit_u8(out, h.major);
            emit_u8(out, h.minor);
            if h.major == 1 {
                let mut epoch = uleb_encode_u64(h.epoch);
                proof {
                    crate::codec::lemma_u64_round_trip(h.epoch, Seq::empty());
                }
                emit_u32(out, epoch.len() as u32);
                out.append(&mut epoch);
            } else {
                emit_u32(out, 0);
            }
        },
        Packet::Ack => {
            emit_u8(out, 2);
        },
        Packet::SensorData(d) => {
            emit_u8(out, 3);
            emit_u8(out, d.count);
        },
        Packet::ResetConnection => {
            emit_u8(out, 4);
        },
    }
    assert(out@ =~= start + packet_bytes(*p));
}

/// Appends the wire form of a value.
pub fn encode_value(out: &mut Vec<u8>, v: &SensorValue)
    ensures
        final(out)@ == old(out)@ + value_bytes(*v),
{
    let ghost start = out@;
    match v {
        SensorValue::Unknown { id, value_len } => {
            emit_u32(out, *id);
            emit_u32(out, *value_len);
        },
        SensorValue::Temperature(b) => {
            emit_u32(out, 0);
            emit_u32(out, 4);
            emit_f32_bits(out, *b);
        },
        SensorValue::Pressure(b) => {
            emit_u32(out, 1);
            emit_u32(out, 4);
            emit_f32_bits(out, *b);
        },
        SensorValue::Altitude(b) => {
            emit_u32(out, 2);
            emit_u32(out, 4);
            emit_f32_bits(out, *b);
        },
        SensorValue::AirQuality(b) => {
            emit_u32(out, 3);
            emit_u32(out, 4);
            emit_f32_bits(out, *b);
        },
    }
    assert(out@ =~= start + value_bytes(*v));
}

/// Appends the wire form of a value point.
pub fn encode_value_point(out: &mut Vec<u8>, p: &SensorValuePoint)
    ensures
        final(out)@ == old(out)@ + value_point_bytes(*p),
{
    let ghost start = out@;
    emit_i64(out, p.time_offset);
    encode_value(out, &p.value);
    assert(out@ =~= start + value_point_bytes(*p));
}

impl Decoder {
    /// Reads the body of a `HandshakeStart`, skipping its tail.
    pub fn read_handshake_start(&mut self) -> (r: Result<HandshakeStart, DecodeError>)
        requires
            old(self).wf(),
        ensures
            final(self).wf(),
            Decoder::read_spec(*old(self), *final(self), r, parse_handshake_start(old(self).pending())),
    {
        let ghost s = self.pending();
        let major = match self.read_u8() {
            Ok(b) => b,
            Err(e) => return Err(e),
        };
        let minor = match self.read_u8() {
            Ok(b) => b,
            Err(e) => return Err(e),
        };
        assert(s.skip(1).skip(1) =~= s.skip(2));
        let tail_len = match self.read_u32() {
            Ok(t) => t,
            Err(e) => return Err(e),
        };
        let ghost n: int = crate::codec::parse_u32(s.skip(2))->Ok_0.1 as int;
        assert(s.skip(2).skip(n) =~= s.skip(2 + n));
        match self.read_discard(tail_len as usize) {
            Ok(()) => {},
            Err(e) => return Err(e),
        }
        assert(s.skip(2 + n).skip(tail_len as int) =~= s.skip(2 + n + tail_len));
        Ok(HandshakeStart { major, minor })
    }

    /// Reads the body of a `HandshakeEnd`: for major version 1 the epoch
    /// that starts the tail, which must fit in it; the rest of the tail is
    /// skipped.
    pub fn read_handshake_end(&mut self) -> (r: Result<HandshakeEnd, DecodeError>)
        requires
            old(self).wf(),
        ensures
            final(self).wf(),
            Decoder::read_spec(*old(self), *final(self), r, parse_handshake_end(old(self).pending())),
    {
        let ghost s = self.pending();
        let major = match self.read_u8() {
            Ok(b) => b,
            Err(e) => return Err(e),
        };
        let minor = match self.read_u8() {
            Ok(b) => b,
            Err(e) => return Err(e),
        };
        assert(s.skip(1).skip(1) =~= s.skip(2));
        let tail_len = match self.read_u32() {
            Ok(t) => t,
            Err(e) => return Err(e),
        };
        let ghost n: int = crate::codec::parse_u32(s.skip(2))->Ok_0.1 as int;
        assert(s.skip(2).skip(n) =~= s.skip(2 + n));
        let mut rest: usize = tail_len as usize;
        let mut epoch: u64 = 0;
        let ghost m: int = 0;
        if major == 1 {
            let pos = self.current_offset();
            epoch = match self.read_u64() {
                Ok(e) => e,
                Err(e) => return Err(e),
            };
            let used = self.current_offset() - pos;
            proof {
                m = parse_u64(s.skip(2 + n))->Ok_0.1 as int;
                assert(s.skip(2 + n).skip(m) =~= s.skip(2 + n + m));
            }
            if used > rest {
                return Err(DecodeError::Malformed);
            }
            rest = rest - used;
        }
        match self.read_discard(rest) {
            Ok(()) => {},
            Err(e) => return Err(e),
        }
        assert(s.skip(2 + n + m).skip(rest as int) =~= s.skip(2 + n + tail_len));
        Ok(HandshakeEnd { major, minor, epoch })
    }

    /// Reads a packet.
    pub fn read_packet(&mut self) -> (r: Result<Packet, DecodeError>)
        requires
            old(self).wf(),
        ensures
            final(self).wf(),
            Decoder::read_spec(*old(self), *final(self), r, parse_packet(old(self).pending())),
            old(self).pending().len() > 0 && old(self).pending()[0] > 4 ==> final(self).offset()
                == old(self).offset() + 1,
    {
        let ghost s = self.pending();
        let tag = match self.read_u8() {
            Ok(b) => b,
            Err(e) => return Err(e),
        };
        if tag == 0 {
            match self.read_handshake_start() {
                Ok(h) => {
                    proof {
                        let n = parse_handshake_start(s.skip(1))->Ok_0.1;
                        assert(s.skip(1).skip(n as int) =~= s.skip(n + 1 as int));
                    }
                    Ok(Packet::HandshakeStart(h))
                },
                Err(e) => Err(e),
            }
        } else if tag == 1 {
            match self.read_handshake_end() {
                Ok(h) => {
                    proof {
                        let n = parse_handshake_end(s.skip(1))->Ok_0.1;
                        assert(s.skip(1).skip(n as int) =~= s.skip(n + 1 as int));
                    }
                    Ok(Packet::HandshakeEnd(h))
                },
                Err(e) => Err(e),
            }
        } else if tag == 2 {
            Ok(Packet::Ack)
        } else if tag == 3 {
            let count = match self.read_u8() {
                Ok(b) => b,
                Err(e) => return Err(e),
            };
            assert(s.skip(1).skip(1) =~= s.skip(2));
            Ok(Packet::SensorData(SensorData { count }))
        } else if tag == 4 {
            Ok(Packet::ResetConnection)
        } else {
            Err(DecodeError::Malformed)
        }
    }

    /// Reads the payload of a value of kind `kind` and declared length
    /// `value_len`, consuming exactly that length.
    pub fn read_value_body(&mut self, kind: u32, value_len: u32) -> (r: Result<SensorValue, DecodeError>)
        requires
            old(self).wf(),
        ensures
            final(self).wf(),
            Decoder::read_spec(
                *old(self),
                *final(self),
                r,
                parse_value_body(old(self).pending(), kind, value_len),
            ),
    {
        let ghost s = self.pending();
        if kind > 3 {
            return match self.read_discard(value_len as usize) {
                Ok(()) => Ok(SensorValue::Unknown { id: kind, value_len }),
                Err(e) => Err(e),
            };
        }
        let bits = match self.read_f32_bits() {
            Ok(b) => b,
            Err(e) => return Err(e),
        };
        if value_len < 4 {
            return Err(DecodeError::Malformed);
        }
        match self.read_discard(value_len as usize - 4) {
            Ok(()) => {},
            Err(e) => return Err(e),
        }
        assert(s.skip(4).skip(value_len - 4) =~= s.skip(value_len as int));
        if kind == 0 {
            Ok(SensorValue::Temperature(bits))
        } else if kind == 1 {
            Ok(SensorValue::Pressure(bits))
        } else if kind == 2 {
            Ok(SensorValue::Altitude(bits))
        } else {
            Ok(SensorValue::AirQuality(bits))
        }
    }

    /// Reads a value, consuming exactly its declared payload length.
    pub fn read_value(&mut self) -> (r: Result<SensorValue, DecodeError>)
        requires
            old(self).wf(),
        ensures
            final(self).wf(),
            Decoder::read_spec(*old(self), *final(self), r, parse_value(old(self).pending())),
    {
        let ghost s = self.pending();
        let kind = match self.read_u32() {
            Ok(k) => k,
            Err(e) => return Err(e),
        };
        let ghost n1: int = parse_u32(s)->Ok_0.1 as int;
        let value_len = match self.read_u32() {
            Ok(k) => k,
            Err(e) => return Err(e),
        };
        let ghost n2: int = parse_u32(s.skip(n1))->Ok_0.1 as int;
        assert(s.skip(n1).skip(n2) =~= s.skip(n1 + n2));
        let value = match self.read_value_body(kind, value_len) {
            Ok(v) => v,
            Err(e) => return Err(e),
        };
        let ghost m: int = parse_value_body(s.skip(n1 + n2), kind, value_len)->Ok_0.1 as int;
        assert(s.skip(n1 + n2).skip(m) =~= s.skip(n1 + n2 + m));
        Ok(value)
    }

    /// Reads `count` value points.
    #[verifier::rlimit(50)]
    pub fn read_value_points(&mut self, count: u8) -> (r: Result<Vec<SensorValuePoint>, DecodeError>)
        requires
            old(self).wf(),
        ensures
            final(self).wf(),
            Decoder::read_spec(
                *old(self),
                *final(self),
                match r {
                    Ok(v) => Ok::<Seq<SensorValuePoint>, DecodeError>(v@),
                    Err(e) => Err(e),
                },
                parse_points(old(self).pending(), count as nat),
            ),
            r is Ok ==> r->Ok_0@.len() == count,
    {
        let ghost s = self.pending();
        let ghost start = self.offset();
        let mut points: Vec<SensorValuePoint> = Vec::new();
        let mut i: u8 = 0;
        assert(s.skip(0) =~= s);
        while i < count
            invariant
                self.wf(),
                s == old(self).pending(),
                start == old(self).offset(),
                i <= count,
                parse_points(s, i as nat) is Ok,
                points@ == parse_points(s, i as nat)->Ok_0.0,
                points@.len() == i,
                parse_points(s, i as nat)->Ok_0.1 <= s.len(),
                self.pending() == s.skip(parse_points(s, i as nat)->Ok_0.1 as int),
                self.offset() == start + parse_points(s, i as nat)->Ok_0.1,
            decreases count - i,
        {
            let ghost m = parse_points(s, i as nat)->Ok_0.1;
            let ghost prev = parse_points(s, i as nat)->Ok_0.0;
            let ghost next = parse_value_point(s.skip(m as int));
            assert(parse_points(s, (i + 1) as nat) == match next {
                Err(e) => Err(e),
                Ok((p, k)) => Ok((prev.push(p), m + k)),
            });
            let p = match self.read_value_point() {
                Ok(p) => p,
                Err(e) => {
                    proof {
                        lemma_points_error_persists(s, (i + 1) as nat, count as nat);
                    }
                    return Err(e);
                },
            };
            points.push(p);
            proof {
                let k = next->Ok_0.1;
                assert(s.skip(m as int).skip(k as int) =~= s.skip((m + k) as int));
            }
            i = i + 1;
        }
        Ok(points)
    }

    /// Reads a value point.
    pub fn read_value_point(&mut self) -> (r: Result<SensorValuePoint, DecodeError>)
        requires
            old(self).wf(),
        ensures
            final(self).wf(),
            Decoder::read_spec(*old(self), *final(self), r, parse_value_point(old(self).pending())),
    {
        reveal(parse_value_point);
        let ghost s = self.pending();
        let time_offset = match self.read_i64() {
            Ok(t) => t,
            Err(e) => return Err(e),
        };
        let ghost n: int = parse_i64(s)->Ok_0.1 as int;
        let value = match self.read_value() {
            Ok(v) => v,
            Err(e) => return Err(e),
        };
        let ghost m: int = parse_value(s.skip(n as int))->Ok_0.1 as int;
        assert(s.skip(n).skip(m) =~= s.skip(n + m));
        Ok(SensorValuePoint { value, time_offset })
    }
}

} // verus!

verus! {

/// The packets whose wire form decodes back to them: a `HandshakeEnd` of
/// another major version carries no epoch, so its epoch must be zero.
pub open spec fn packet_wf(p: Packet) -> bool {
    match p {
        Packet::HandshakeEnd(h) => h.major == 1 || h.epoch == 0,
        _ => true,
    }
}

/// The values whose wire form decodes back to them: an unknown value must
/// have a kind outside the known ones and, as it is written without its
/// payload, a payload length of zero.
pub open spec fn value_wf(v: SensorValue) -> bool {
    match v {
        SensorValue::Unknown { id, value_len } => id > 3 && value_len == 0,
        _ => true,
    }
}

/// Decoding the wire form of a packet, followed by anything, gives back the
/// packet and consumes exactly its wire form.
pub proof fn lemma_packet_round_trip(p: Packet, rest: Seq<u8>)
    requires
        packet_wf(p),
    ensures
        parse_packet(packet_bytes(p) + rest) == Ok::<(Packet, nat), DecodeError>(
            (p, packet_bytes(p).len()),
        ),
{
    let s = packet_bytes(p) + rest;
    match p {
        Packet::HandshakeStart(h) => {
            let b = s.skip(1);
            assert(b =~= seq![h.major, h.minor] + (uleb(0) + rest));
            assert(b.skip(2) =~= uleb(0) + rest);
            lemma_u32_round_trip(0, rest);
            assert(uleb(0).len() == 1);
        },
        Packet::HandshakeEnd(h) => {
            let b = s.skip(1);
            if h.major == 1 {
                let e = uleb(h.epoch as nat);
                lemma_u64_round_trip(h.epoch, rest);
                let t = e.len() as u32;
                assert(b =~= seq![h.major, h.minor] + (uleb(t as nat) + (e + rest)));
                assert(b.skip(2) =~= uleb(t as nat) + (e + rest));
                lemma_u32_round_trip(t, e + rest);
                let n = uleb(t as nat).len();
                assert(b.skip(2 + n as int) =~= e + rest);
            } else {
                assert(b =~= seq![h.major, h.minor] + (uleb(0) + rest));
                assert(b.skip(2) =~= uleb(0) + rest);
                lemma_u32_round_trip(0, rest);
                assert(uleb(0).len() == 1);
            }
        },
        _ => {},
    }
}

/// Decoding the wire form of a value body that starts `s`.
proof fn lemma_value_body_round_trip(v: SensorValue, b: u32, rest: Seq<u8>)
    requires
        value_kind(v) <= 3,
        v == known_value(value_kind(v), b),
    ensures
        parse_value_body(le_bytes(b) + rest, value_kind(v), 4) == Ok::<(SensorValue, nat), DecodeError>(
            (v, 4),
        ),
{
    lemma_f32_bits_round_trip(b, rest);
}

/// Decoding the wire form of a known value gives it back.
proof fn lemma_known_value_round_trip(v: SensorValue, b: u32, rest: Seq<u8>)
    requires
        value_kind(v) <= 3,
        v == known_value(value_kind(v), b),
        value_bytes(v) == uleb(value_kind(v) as nat) + uleb(4) + le_bytes(b),
    ensures
        parse_value(value_bytes(v) + rest) == Ok::<(SensorValue, nat), DecodeError>(
            (v, value_bytes(v).len()),
        ),
{
    let kind = value_kind(v);
    let q = value_bytes(v) + rest;
    assert(q =~= uleb(kind as nat) + (uleb(4) + (le_bytes(b) + rest)));
    lemma_u32_round_trip(kind, uleb(4) + (le_bytes(b) + rest));
    let n1 = uleb(kind as nat).len();
    assert(q.skip(n1 as int) =~= uleb(4) + (le_bytes(b) + rest));
    lemma_u32_round_trip(4, le_bytes(b) + rest);
    let n2 = uleb(4).len();
    assert(q.skip((n1 + n2) as int) =~= le_bytes(b) + rest);
    lemma_value_body_round_trip(v, b, rest);
}

/// Decoding the wire form of a value, followed by anything, gives back the
/// value and consumes exactly its wire form.
pub proof fn lemma_value_round_trip(v: SensorValue, rest: Seq<u8>)
    requires
        value_wf(v),
    ensures
        parse_value(value_bytes(v) + rest) == Ok::<(SensorValue, nat), DecodeError>(
            (v, value_bytes(v).len()),
        ),
{
    match v {
        SensorValue::Unknown { id, value_len } => {
            lemma_u32_round_trip(id, uleb(value_len as nat) + rest);
            assert(value_bytes(v) + rest =~= uleb(id as nat) + (uleb(value_len as nat) + rest));
            let n1 = uleb(id as nat).len();
            assert((value_bytes(v) + rest).skip(n1 as int) =~= uleb(value_len as nat) + rest);
            lemma_u32_round_trip(value_len, rest);
            let n2 = uleb(value_len as nat).len();
            assert((value_bytes(v) + rest).skip((n1 + n2) as int) =~= rest);
        },
        SensorValue::Temperature(b) => lemma_known_value_round_trip(v, b, rest),
        SensorValue::Pressure(b) => lemma_known_value_round_trip(v, b, rest),
        SensorValue::Altitude(b) => lemma_known_value_round_trip(v, b, rest),
        SensorValue::AirQuality(b) => lemma_known_value_round_trip(v, b, rest),
    }
}

/// Decoding the wire form of a value point, followed by anything, gives back
/// the value point and consumes exactly its wire form.
pub proof fn lemma_value_point_round_trip(p: SensorValuePoint, rest: Seq<u8>)
    requires
        value_wf(p.value),
    ensures
        parse_value_point(value_point_bytes(p) + rest) == Ok::<(SensorValuePoint, nat), DecodeError>(
            (p, value_point_bytes(p).len()),
        ),
{
    reveal(parse_value_point);
    let v = p.value;
    let s = value_point_bytes(p) + rest;
    lemma_i64_round_trip(p.time_offset, value_bytes(v) + rest);
    assert(s =~= sleb(p.time_offset as int) + (value_bytes(v) + rest));
    let n = sleb(p.time_offset as int).len();
    assert(s.skip(n as int) =~= value_bytes(v) + rest);
    lemma_value_round_trip(v, rest);
}

/// A `HandshakeStart` whose tail is not empty decodes to its versions, and
/// the whole tail is consumed.
pub proof fn lemma_handshake_start_skips_tail(major: u8, minor: u8, tail: Seq<u8>, rest: Seq<u8>)
    requires
        tail.len() <= 0xFFFF_FFFF,
    ensures
        parse_packet(seq![0u8, major, minor] + uleb(tail.len()) + tail + rest) == Ok::<
            (Packet, nat),
            DecodeError,
        >(
            (
                Packet::HandshakeStart(HandshakeStart { major, minor }),
                3 + uleb(tail.len()).len() + tail.len(),
            ),
        ),
{
    let t = tail.len() as u32;
    let s = seq![0u8, major, minor] + uleb(tail.len()) + tail + rest;
    let b = s.skip(1);
    assert(b =~= seq![major, minor] + (uleb(t as nat) + (tail + rest)));
    assert(b.skip(2) =~= uleb(t as nat) + (tail + rest));
    lemma_u32_round_trip(t, tail + rest);
}

#[verifier::rlimit(40)]
/// A value of unknown kind whose payload is not empty decodes to its kind
/// and length, and exactly the declared payload is consumed.
pub proof fn lemma_unknown_value_skips_payload(
    time_offset: i64,
    id: u32,
    payload: Seq<u8>,
    rest: Seq<u8>,
)
    requires
        id > 3,
        payload.len() <= 0xFFFF_FFFF,
    ensures
        ({
            let p = SensorValuePoint {
                value: SensorValue::Unknown { id, value_len: payload.len() as u32 },
                time_offset,
            };
            parse_value_point(value_point_bytes(p) + payload + rest) == Ok::<
                (SensorValuePoint, nat),
                DecodeError,
            >((p, value_point_bytes(p).len() + payload.len()))
        }),
{
    reveal(parse_value_point);
    let len = payload.len() as u32;
    let v = SensorValue::Unknown { id, value_len: len };
    let p = SensorValuePoint { value: v, time_offset };
    let s = value_point_bytes(p) + payload + rest;
    let q = value_bytes(v) + (payload + rest);
    lemma_i64_round_trip(time_offset, q);
    assert(s =~= sleb(time_offset as int) + q);
    let n = sleb(time_offset as int).len();
    assert(s.skip(n as int) =~= q);
    lemma_u32_round_trip(id, uleb(len as nat) + (payload + rest));
    assert(q =~= uleb(id as nat) + (uleb(len as nat) + (payload + rest)));
    let n1 = uleb(id as nat).len();
    assert(q.skip(n1 as int) =~= uleb(len as nat) + (payload + rest));
    lemma_u32_round_trip(len, payload + rest);
    let n2 = uleb(len as nat).len();
    assert(q.skip((n1 + n2) as int) =~= payload + rest);
}

} // verus!
